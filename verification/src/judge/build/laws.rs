//! What holds of every build phase.
use vstd::prelude::*;
use crate::judge::OrderState;
use crate::judge::build::outcome::{about_mask, OrderOutcome, verdict_in};
use crate::judge::build::resolver::{ContextView, lemma_run_distinct};
use crate::judge::build::state::{adjustment_index, adjustment_mask, AdjustmentView, StateView};
use crate::order::{BuildCommand, BuildOrderView};
use crate::seqs::{count_true, first_true, lemma_first_true};
use crate::unit::distinct_provinces;
use crate::variant::disorder::lemma_after_disorder_distinct;
use crate::variant::standard::JudgeView;

verus! {

/// For each order with its outcome, whether it is an order of the nation
/// with the command that succeeded.
pub open spec fn wins_mask(
    verdicts: Seq<(BuildOrderView, OrderOutcome)>,
    nation: Seq<u8>,
    command: BuildCommand,
) -> Seq<bool> {
    Seq::new(
        verdicts.len(),
        |i: int|
            verdicts[i].0.nation == nation && verdicts[i].0.command == command && verdicts[i].1
                == OrderOutcome::Succeeds,
    )
}

/// The number of the nation's orders with the command that succeeded.
pub open spec fn wins(
    verdicts: Seq<(BuildOrderView, OrderOutcome)>,
    nation: Seq<u8>,
    command: BuildCommand,
) -> nat {
    count_true(wins_mask(verdicts, nation, command))
}

/// The other command.
pub open spec fn other(command: BuildCommand) -> BuildCommand {
    match command {
        BuildCommand::Build => BuildCommand::Disband,
        BuildCommand::Disband => BuildCommand::Build,
    }
}

/// The size of a number.
pub open spec fn abs(x: int) -> int {
    if x < 0 {
        -x
    } else {
        x
    }
}

/// One more order with its outcome counts where it is an order of the
/// nation with the command that succeeded.
proof fn lemma_wins_push(
    verdicts: Seq<(BuildOrderView, OrderOutcome)>,
    entry: (BuildOrderView, OrderOutcome),
    nation: Seq<u8>,
    command: BuildCommand,
)
    ensures
        wins(verdicts.push(entry), nation, command) == wins(verdicts, nation, command) + if entry.0.nation
            == nation && entry.0.command == command && entry.1 == OrderOutcome::Succeeds {
            1nat
        } else {
            0nat
        },
{
    let m = wins_mask(verdicts.push(entry), nation, command);
    assert(m.drop_last() =~= wins_mask(verdicts, nation, command));
}

/// Each adjustment at the start of a phase is what its nation may do.
proof fn lemma_initial_data(judge: JudgeView, cx: ContextView, k: int)
    requires
        0 <= k <= judge.nations.len(),
    ensures
        forall|a: int|
            0 <= a < judge.initial_data_upto(cx, k).len() ==> Some(
                #[trigger] judge.initial_data_upto(cx, k)[a],
            ) == judge.adjustment(cx, judge.initial_data_upto(cx, k)[a].nation),
    decreases k,
{
    if k > 0 {
        lemma_initial_data(judge, cx, k - 1);
    }
}

/// What the orders so far have left of what the nation may do: the data
/// keep their nations and commands, the nation's successes all have the
/// command that it may give, and together with what remains they make up
/// what it could do at the start.
pub open spec fn accounted(init: Seq<AdjustmentView>, st: StateView, nation: Seq<u8>) -> bool {
    &&& st.data.len() == init.len()
    &&& forall|a: int|
        0 <= a < init.len() ==> (#[trigger] st.data[a]).nation == init[a].nation && st.data[a].command
            == init[a].command
    &&& match adjustment_index(init, nation) {
        None => wins(st.verdicts, nation, BuildCommand::Build) == 0 && wins(
            st.verdicts,
            nation,
            BuildCommand::Disband,
        ) == 0,
        Some(a) => wins(st.verdicts, nation, init[a].command) + st.data[a].remaining
            == init[a].remaining && wins(st.verdicts, nation, other(init[a].command)) == 0,
    }
}

/// One more order keeps the account.
proof fn lemma_after_accounted(
    cx: ContextView,
    init: Seq<AdjustmentView>,
    st: StateView,
    order: BuildOrderView,
    nation: Seq<u8>,
)
    requires
        accounted(init, st, nation),
    ensures
        accounted(init, cx.after(st, order), nation),
{
    if verdict_in(st.verdicts, order) is None {
        let v = cx.rules.verdict(cx, st, order);
        lemma_wins_push(st.verdicts, (order, v), nation, BuildCommand::Build);
        lemma_wins_push(st.verdicts, (order, v), nation, BuildCommand::Disband);
        assert(adjustment_mask(st.data, order.nation) =~= adjustment_mask(init, order.nation));
        lemma_first_true(adjustment_mask(init, order.nation), 0);
        lemma_first_true(adjustment_mask(init, nation), 0);
    }
}

/// The orders keep the account.
proof fn lemma_run_accounted(cx: ContextView, nation: Seq<u8>, k: int)
    ensures
        accounted(cx.rules.initial_data(cx), cx.run_upto(k), nation),
    decreases k,
{
    let init = cx.rules.initial_data(cx);
    if k > 0 {
        lemma_run_accounted(cx, nation, k - 1);
        lemma_after_accounted(cx, init, cx.run_upto(k - 1), cx.orders[k - 1], nation);
    }
}

/// Of no nation do the builds that succeed and the disbands that succeed
/// differ by more than the supply centers that it owns differ from its
/// units.
pub proof fn build_symmetry(cx: ContextView, nation: Seq<u8>)
    ensures
        abs(
            wins(cx.outcome().orders, nation, BuildCommand::Build) - wins(
                cx.outcome().orders,
                nation,
                BuildCommand::Disband,
            ),
        ) <= abs(cx.rules.delta(cx, nation)),
{
    let init = cx.rules.initial_data(cx);
    lemma_run_accounted(cx, nation, cx.orders.len() as int);
    lemma_initial_data(cx.rules, cx, cx.rules.nations.len() as int);
    lemma_first_true(adjustment_mask(init, nation), 0);
}

/// Supply-center ownership is not changed by the orders of a build phase:
/// two phases that differ in their orders alone end with the same owners.
pub proof fn ownership_ignores_orders(a: ContextView, b: ContextView)
    requires
        a.rules == b.rules,
        a.last_time == b.last_time,
        a.world == b.world,
    ensures
        a.outcome().sc_ownerships == b.outcome().sc_ownerships,
{
    lemma_ownerships_same(a, b, a.rules.map.provinces.len() as int);
}

/// The owners found among the first `k` provinces do not depend on the
/// orders.
proof fn lemma_ownerships_same(a: ContextView, b: ContextView, k: int)
    requires
        a.rules == b.rules,
        a.last_time == b.last_time,
        a.world == b.world,
    ensures
        a.rules.ownerships_upto(a, k) == b.rules.ownerships_upto(b, k),
    decreases k,
{
    if k > 0 {
        lemma_ownerships_same(a, b, k - 1);
    }
}

/// After a build phase no two units share a province.
pub proof fn build_positions_distinct(cx: ContextView)
    requires
        cx.world.wf(),
    ensures
        distinct_provinces(cx.outcome().final_units),
{
    lemma_run_distinct(cx, cx.orders.len() as int);
    let st = cx.run();
    lemma_after_disorder_distinct(cx.rules, st.data, st.live, st.data.len() as int);
}

/// No order stands twice among the orders with their outcomes.
pub open spec fn each_once(verdicts: Seq<(BuildOrderView, OrderOutcome)>) -> bool {
    forall|i: int, j: int| 0 <= i < j < verdicts.len() ==> verdicts[i].0 != verdicts[j].0
}

/// The orders resolved so far are listed once each, and each of the first
/// `k` submitted orders is listed.
proof fn lemma_run_total(cx: ContextView, k: int)
    requires
        0 <= k <= cx.orders.len(),
    ensures
        each_once(cx.run_upto(k).verdicts),
        forall|j: int|
            0 <= j < k ==> verdict_in(cx.run_upto(k).verdicts, #[trigger] cx.orders[j]) is Some,
    decreases k,
{
    if k > 0 {
        lemma_run_total(cx, k - 1);
        let prev = cx.run_upto(k - 1).verdicts;
        let cur = cx.run_upto(k).verdicts;
        let order = cx.orders[k - 1];
        lemma_first_true(about_mask(prev, order), 0);
        if verdict_in(prev, order) is None {
            assert forall|i: int, j: int| 0 <= i < j < cur.len() implies cur[i].0 != cur[j].0 by {
                if j == prev.len() {
                    assert(!about_mask(prev, order)[i]);
                }
            }
        }
        assert forall|j: int| 0 <= j < k implies verdict_in(cur, #[trigger] cx.orders[j])
            is Some by {
            let o = cx.orders[j];
            if j < k - 1 || verdict_in(prev, order) is Some {
                lemma_first_true(about_mask(prev, o), 0);
                let w = first_true(about_mask(prev, o), 0)->0;
                assert(about_mask(cur, o)[w]);
                lemma_first_true(about_mask(cur, o), 0);
            } else {
                assert(about_mask(cur, o)[prev.len() as int]);
                lemma_first_true(about_mask(cur, o), 0);
            }
        }
    }
}

/// Every submitted order appears in the outcome of a build phase exactly
/// once.
pub proof fn build_total_verdict(cx: ContextView)
    ensures
        each_once(cx.outcome().orders),
        forall|j: int|
            0 <= j < cx.orders.len() ==> verdict_in(cx.outcome().orders, #[trigger] cx.orders[j])
                is Some,
{
    lemma_run_total(cx, cx.orders.len() as int);
}

/// The plain state of a build order succeeds exactly for the outcome
/// `Succeeds`.
pub proof fn build_outcome_projection(outcome: OrderOutcome)
    ensures
        outcome.state().holds() == (outcome == OrderOutcome::Succeeds),
        outcome.state() == OrderState::Fails <==> outcome != OrderOutcome::Succeeds,
{
}

} // verus!

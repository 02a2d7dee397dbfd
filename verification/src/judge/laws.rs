//! What holds of every main phase.
use vstd::prelude::*;
use crate::geo::map::WorldMapView;
use crate::judge::{adjudicated, adjudication, judged, OrderState};
use crate::judge::calc::{head_to_head_spec, path_exists_spec};
use crate::judge::context::{ContextView, distinct, lemma_distinct_upto, no_order_twice};
use crate::judge::outcome::{AttackOutcome, OrderOutcome};
use crate::judge::phase::{lawful, OutcomeView, positions_after, verdicts_of};
use crate::judge::resolver::{resolve_all, StateView};
use crate::judge::rulebook::{explain_spec, move_outcome_spec, Rulebook, support_outcome_spec};
use crate::judge::step::{first_hit, lemma_first_hit_upto, Seen, Step};
use crate::judge::strength::{attack_strength_spec, defend_strength_spec, lemma_count_foreign_bound,
    lost_head_to_head_spec, meets_head_to_head, prevent_step, prevent_steps, prevent_strength_spec,
    resistance_spec};
use crate::judge::support::{find_for_spec, is_order_cut_spec, is_supporting_self_spec,
    SupportOutcome};
use crate::order::OrderView;
use crate::seqs::{lemma_first_true, lemma_first_true_is, lemma_trues_increasing, lemma_trues_upto,
    trues};
use crate::unit::distinct_provinces;

verus! {

/// What `adjudicate` returns is a function of the board and the orders: two
/// results for the same board and orders are the same.
pub proof fn adjudication_is_determined(
    map: WorldMapView,
    given: Seq<OrderView>,
    first: Seq<(OrderView, OrderState)>,
    second: Seq<(OrderView, OrderState)>,
)
    requires
        first == adjudication(map, given),
        second == adjudication(map, given),
    ensures
        first == second,
{
}

/// Every submitted order appears in the outcome exactly once, with one
/// verdict.
pub proof fn every_order_has_one_verdict(map: WorldMapView, given: Seq<OrderView>)
    ensures
        no_order_twice(adjudicated(map, given).orders),
        forall|k: int|
            0 <= k < given.len() ==> adjudicated(map, given).orders.contains(#[trigger] given[k]),
        adjudicated(map, given).verdicts.len() == adjudicated(map, given).orders.len(),
        adjudication(map, given).len() == adjudicated(map, given).orders.len(),
{
    lemma_distinct_upto(given, given.len() as int);
}

/// The plain state of a main-phase order succeeds exactly for the outcome
/// under which the order was carried out.
pub proof fn main_outcome_projection(outcome: OrderOutcome)
    ensures
        outcome.state().holds() == outcome.succeeds(),
        outcome.state() == OrderState::Succeeds <==> outcome.succeeds(),
        outcome.state() == OrderState::Fails <==> !outcome.succeeds(),
{
}

/// Every verdict, as a rule is told it.
pub open spec fn told(verdicts: Seq<bool>) -> Seen {
    Seq::new(verdicts.len(), |j: int| Some(verdicts[j]))
}

/// Whether the rules, told every verdict, give the order at `i` the
/// verdict that it has.
pub open spec fn upheld(cx: ContextView, paradox: Seq<bool>, verdicts: Seq<bool>, i: int) -> bool {
    match explain_spec(cx, paradox, told(verdicts), i) {
        Step::Done(out) => out.succeeds() == verdicts[i],
        Step::Need(_) => false,
    }
}

/// Whether every order has its verdict in the table of the resolver, and
/// the rules, told every verdict, give each order the verdict that it has.
pub open spec fn upheld_by_rules(cx: ContextView, st: StateView) -> bool {
    &&& st.table.len() == cx.orders.len()
    &&& st.all_resolved()
    &&& forall|i: int|
        0 <= i < cx.orders.len() ==> #[trigger] upheld(
            cx,
            st.paradox,
            verdicts_of(st, cx.orders.len()),
            i,
        )
}

/// No two orders are for units in the same province.
pub open spec fn one_unit_per_province(orders: Seq<OrderView>) -> bool {
    (OutcomeView { orders, verdicts: Seq::empty(), outcomes: Seq::empty() }).one_unit_per_province()
}

/// Where each unit has its own province, the unit of the order at `o` is
/// the one that stands in its province.
proof fn lemma_sole_occupier(cx: ContextView, o: int)
    requires
        one_unit_per_province(cx.orders),
        0 <= o < cx.orders.len(),
    ensures
        cx.occupier(cx.orders[o].region.province) == Some(o),
{
    let mask = cx.stands_mask(cx.orders[o].region.province);
    lemma_first_true_is(mask, 0, o);
}

/// Where the rules, told every verdict, let a move succeed, a unit of the
/// mover's nation that stood in the destination has moved away: no
/// successful move dislodges a unit of the same nation.
pub proof fn no_self_dislodge(
    cx: ContextView,
    paradox: Seq<bool>,
    verdicts: Seq<bool>,
    m: int,
    o: int,
)
    requires
        verdicts.len() == cx.orders.len(),
        0 <= m < cx.orders.len(),
        0 <= o < cx.orders.len(),
        m != o,
        one_unit_per_province(cx.orders),
        upheld(cx, paradox, verdicts, m),
        verdicts[m],
        cx.orders[m].is_move_to_province(cx.orders[o].region.province),
        cx.orders[m].nation == cx.orders[o].nation,
    ensures
        cx.orders[o].is_move(),
        verdicts[o],
{
    lemma_sole_occupier(cx, o);
}

/// What the rules found when they let the move at `j` succeed: a path, its
/// supports, an attack of at least 1 and at most one more than the
/// supports, which is more than what the destination sets against it, and
/// no other move into the province that keeps it out.
proof fn lemma_winner(cx: ContextView, paradox: Seq<bool>, verdicts: Seq<bool>, j: int) -> (r: (
    Seq<usize>,
    nat,
))
    requires
        verdicts.len() == cx.orders.len(),
        0 <= j < cx.orders.len(),
        cx.orders[j].is_move(),
        upheld(cx, paradox, verdicts, j),
        verdicts[j],
    ensures
        path_exists_spec(cx, told(verdicts), j) == Step::Done(true),
        find_for_spec(cx, told(verdicts), j) == Step::Done(r.0),
        attack_strength_spec(cx, told(verdicts), j) == Step::Done(r.1),
        1 <= r.1 <= 1 + r.0.len(),
        resistance_spec(cx, told(verdicts), j) is Done,
        r.1 > resistance_spec(cx, told(verdicts), j)->Done_0,
        first_hit(prevent_steps(cx, told(verdicts), j, r.1)) == Step::<Option<usize>>::Done(None),
        cx.orders[j].move_dest()->0.province != cx.orders[j].region.province,
{
    let seen = told(verdicts);
    let sup = find_for_spec(cx, seen, j)->Done_0;
    let atk = attack_strength_spec(cx, seen, j)->Done_0;
    match cx.occupier(cx.orders[j].move_dest()->0.province) {
        None => {},
        Some(h) => {
            lemma_count_foreign_bound(cx, sup, cx.orders[h].nation, sup.len() as int);
        },
    }
    (sup, atk)
}

/// A move that the rules let succeed did not lose a head-to-head battle.
proof fn lemma_winner_not_beaten(cx: ContextView, paradox: Seq<bool>, verdicts: Seq<bool>, j: int)
    requires
        verdicts.len() == cx.orders.len(),
        0 <= j < cx.orders.len(),
        cx.orders[j].is_move(),
        one_unit_per_province(cx.orders),
        forall|i: int| 0 <= i < cx.orders.len() ==> upheld(cx, paradox, verdicts, i),
        verdicts[j],
    ensures
        lost_head_to_head_spec(cx, told(verdicts), j) == Step::Done(false),
{
    let p = cx.orders[j].move_dest()->0.province;
    match cx.occupier(p) {
        None => {},
        Some(h) => {
            lemma_first_true(cx.stands_mask(p), 0);
            if h != j && head_to_head_spec(cx, j, h) {
                if verdicts[h] {
                    lemma_winner(cx, paradox, verdicts, j);
                    lemma_winner(cx, paradox, verdicts, h);
                    lemma_sole_occupier(cx, j);
                    assert(false);
                }
            }
        },
    }
}

/// Two moves into one province do not both succeed.
proof fn lemma_one_winner(cx: ContextView, paradox: Seq<bool>, verdicts: Seq<bool>, i: int, j: int)
    requires
        verdicts.len() == cx.orders.len(),
        cx.orders.len() <= usize::MAX,
        0 <= i < cx.orders.len(),
        0 <= j < cx.orders.len(),
        i != j,
        one_unit_per_province(cx.orders),
        forall|k: int| 0 <= k < cx.orders.len() ==> upheld(cx, paradox, verdicts, k),
        cx.orders[i].is_move(),
        cx.orders[j].is_move(),
        verdicts[i],
        verdicts[j],
    ensures
        cx.orders[i].move_dest()->0.province != cx.orders[j].move_dest()->0.province,
{
    if cx.orders[i].move_dest()->0.province == cx.orders[j].move_dest()->0.province {
        let seen = told(verdicts);
        let wi = lemma_winner(cx, paradox, verdicts, i);
        let wj = lemma_winner(cx, paradox, verdicts, j);
        lemma_winner_not_beaten(cx, paradox, verdicts, i);
        lemma_winner_not_beaten(cx, paradox, verdicts, j);
        let si = prevent_steps(cx, seen, i, wi.1);
        let sj = prevent_steps(cx, seen, j, wj.1);
        lemma_first_hit_upto(si, si.len() as int);
        lemma_first_hit_upto(sj, sj.len() as int);
        assert(si[j] == Step::Done(false));
        assert(sj[i] == Step::Done(false));
        assert(false);
    }
}

/// A standoff: a move does not succeed against another move into the same
/// province whose prevent strength is no less than its attack strength.
pub proof fn standoff_fails(cx: ContextView, verdicts: Seq<bool>, i: int, k: int)
    requires
        verdicts.len() == cx.orders.len(),
        cx.orders.len() <= usize::MAX,
        0 <= i < cx.orders.len(),
        0 <= k < cx.orders.len(),
        i != k,
        cx.orders[i].is_move(),
        cx.orders[k].is_move_to_province(cx.orders[i].move_dest()->0.province),
        attack_strength_spec(cx, told(verdicts), i) is Done,
        prevent_strength_spec(cx, told(verdicts), k) is Done,
        attack_strength_spec(cx, told(verdicts), i)->Done_0 <= prevent_strength_spec(
            cx,
            told(verdicts),
            k,
        )->Done_0,
    ensures
        move_outcome_spec(cx, told(verdicts), i) != Step::Done(AttackOutcome::Succeeds),
{
    let seen = told(verdicts);
    if move_outcome_spec(cx, seen, i) == Step::Done(AttackOutcome::Succeeds) {
        let atk = attack_strength_spec(cx, seen, i)->Done_0;
        let steps = prevent_steps(cx, seen, i, atk);
        lemma_first_hit_upto(steps, steps.len() as int);
        assert(steps[k] == prevent_step(cx, seen, i, atk, k));
        assert(false);
    }
}

/// A head-to-head battle: a move that meets the unit of its destination
/// head to head does not succeed unless its attack strength is greater
/// than the defend strength of that unit. With equal strengths both fail.
pub proof fn head_to_head_needs_more(cx: ContextView, verdicts: Seq<bool>, i: int)
    requires
        verdicts.len() == cx.orders.len(),
        0 <= i < cx.orders.len(),
        cx.orders[i].is_move(),
        meets_head_to_head(cx, i),
        move_outcome_spec(cx, told(verdicts), i) == Step::Done(AttackOutcome::Succeeds),
    ensures
        attack_strength_spec(cx, told(verdicts), i) is Done,
        defend_strength_spec(
            cx,
            told(verdicts),
            cx.occupier(cx.orders[i].move_dest()->0.province)->0,
        ) is Done,
        attack_strength_spec(cx, told(verdicts), i)->Done_0 > defend_strength_spec(
            cx,
            told(verdicts),
            cx.occupier(cx.orders[i].move_dest()->0.province)->0,
        )->Done_0,
{
}

/// Where each unit has its own province and no order is carried out, no
/// two units share a province after the phase.
pub proof fn standstill_positions_distinct(orders: Seq<OrderView>)
    requires
        one_unit_per_province(orders),
    ensures
        distinct_provinces(positions_after(orders, Seq::new(orders.len(), |i: int| false))),
{
    let verdicts = Seq::new(orders.len(), |i: int| false);
    let view = OutcomeView { orders, verdicts, outcomes: Seq::empty() };
    let mask = view.stays_mask();
    let idx = trues(mask);
    let pos = view.positions();
    lemma_trues_upto(mask, mask.len() as int);
    lemma_trues_increasing(mask, mask.len() as int);
    assert forall|a: int, b: int| 0 <= a < b < pos.len() implies pos[a].region.province
        != pos[b].region.province by {
        let i = idx[a];
        let j = idx[b];
        assert(mask[i] && mask[j]);
        assert(i < j);
        assert(pos[a] == view.end_position(i));
        assert(pos[b] == view.end_position(j));
    }
}

/// The support at `i` holds exactly where the unit does not support
/// itself and the support is not cut, be it by an order or because the
/// unit is dislodged.
pub proof fn support_holds_unless_cut(cx: ContextView, seen: Seen, i: int)
    ensures
        support_outcome_spec(cx, seen, i) == Step::Done(SupportOutcome::NotDisrupted)
            <==> !is_supporting_self_spec(cx.orders[i]) && is_order_cut_spec(cx, seen, i)
            == Step::Done(false),
{
}

/// Where each unit had its own province and the rules, told every verdict,
/// give each order the verdict that it has, no two units share a province
/// after the phase.
pub proof fn main_positions_distinct(cx: ContextView, paradox: Seq<bool>, verdicts: Seq<bool>)
    requires
        verdicts.len() == cx.orders.len(),
        cx.orders.len() <= usize::MAX,
        one_unit_per_province(cx.orders),
        forall|k: int| 0 <= k < cx.orders.len() ==> upheld(cx, paradox, verdicts, k),
    ensures
        distinct_provinces(positions_after(cx.orders, verdicts)),
{
    let view = OutcomeView { orders: cx.orders, verdicts, outcomes: Seq::empty() };
    let mask = view.stays_mask();
    let idx = trues(mask);
    let pos = view.positions();
    lemma_trues_upto(mask, mask.len() as int);
    lemma_trues_increasing(mask, mask.len() as int);
    assert forall|a: int, b: int| 0 <= a < b < pos.len() implies pos[a].region.province
        != pos[b].region.province by {
        let i = idx[a];
        let j = idx[b];
        if pos[a].region.province == pos[b].region.province {
            if view.moved(i) && view.moved(j) {
                lemma_one_winner(cx, paradox, verdicts, i, j);
            } else if view.moved(i) {
                assert(view.dislodge_mask(j)[i]);
                lemma_first_true(view.dislodge_mask(j), 0);
                assert(false);
            } else if view.moved(j) {
                assert(view.dislodge_mask(i)[j]);
                lemma_first_true(view.dislodge_mask(i), 0);
                assert(false);
            } else {
                assert(false);
            }
        }
    }
}

/// What a main phase ends in keeps the laws of the board, and its reasons
/// agree with its verdicts: where each unit had its own province, no move
/// that succeeded went into the province of a unit of its own nation that
/// stayed, and no two units share a province after the phase.
pub proof fn judged_is_lawful(cx: ContextView)
    requires
        cx.orders.len() <= usize::MAX,
    ensures
        lawful(judged(cx)),
        judged(cx).settled(),
{
    let st = resolve_all(Rulebook, cx);
    let out = judged(cx);
    if upheld_by_rules(cx, st) {
        let verdicts = verdicts_of(st, cx.orders.len());
        assert(told(verdicts) =~= st.seen());
        assert forall|i: int| 0 <= i < out.orders.len() implies (#[trigger] out.outcomes[i]).succeeds()
            == out.verdicts[i] by {
            assert(upheld(cx, st.paradox, verdicts, i));
        }
        if out.one_unit_per_province() {
            main_positions_distinct(cx, st.paradox, verdicts);
            assert forall|m: int, o: int|
                0 <= m < out.orders.len() && 0 <= o < out.orders.len() && m != o && out.verdicts[m]
                    && out.orders[m].is_move_to_province(out.orders[o].region.province)
                    && out.orders[m].nation == out.orders[o].nation implies out.moved(o) by {
                assert(upheld(cx, st.paradox, verdicts, m));
                no_self_dislodge(cx, st.paradox, verdicts, m, o);
            }
        }
    } else {
        if out.one_unit_per_province() {
            standstill_positions_distinct(out.orders);
        }
    }
}

/// What `adjudicate` returns keeps the laws of the board: where each unit
/// has its own province, no move that succeeds goes into the province of a
/// unit of its own nation that stays, and no two units share a province
/// after the phase.
pub proof fn adjudication_is_lawful(map: WorldMapView, given: Seq<OrderView>)
    requires
        given.len() <= usize::MAX,
    ensures
        lawful(adjudicated(map, given)),
        adjudicated(map, given).settled(),
{
    lemma_distinct_upto(given, given.len() as int);
    judged_is_lawful(ContextView { map, orders: distinct(given) });
}

} // verus!

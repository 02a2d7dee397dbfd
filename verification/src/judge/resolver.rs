//! The resolver of a main phase: it finds the verdict of each order, asking
//! the rules, guessing where orders depend on each other in a circle, and
//! falling back on a rule of its own where the guesses disagree.
use vstd::prelude::*;
use crate::judge::{Adjudicate, OrderState};
use crate::judge::context::{ContextView, ResolverContext};
use crate::judge::convoy::{clone_indices, has_index};
use crate::judge::step::{Seen, Step};
use crate::order::MainCommand;
use crate::seqs::{count_true, lemma_count_true_mono};

verus! {

/// What the resolver knows of an order.
#[derive(Debug, Clone, Copy, PartialEq, Eq, Structural)]
pub enum Resolution {
    /// Nothing yet.
    Unresolved,
    /// A verdict that is assumed while the order, or one that it depends
    /// on, is being adjudicated.
    Guessing(bool),
    /// The verdict.
    Resolved(bool),
}

impl Resolution {
    /// The verdict that the entry stands for; failure where there is none.
    pub open spec fn value(self) -> bool {
        match self {
            Resolution::Unresolved => false,
            Resolution::Guessing(v) => v,
            Resolution::Resolved(v) => v,
        }
    }
}

pub struct StateView {
    /// What is known of each order.
    pub table: Seq<Resolution>,
    /// The orders whose present entry rests on a guess.
    pub deps: Seq<usize>,
    /// The convoys that a paradox has failed.
    pub paradox: Seq<bool>,
}

impl StateView {
    /// For each order, whether nothing is known of it.
    pub open spec fn pending_mask(self) -> Seq<bool> {
        Seq::new(self.table.len(), |j: int| self.table[j] is Unresolved)
    }

    /// The number of orders of which nothing is known.
    pub open spec fn pending(self) -> nat {
        count_true(self.pending_mask())
    }

    /// The state with the order at `i` assumed to have the verdict `v`.
    pub open spec fn guess(self, i: int, v: bool) -> StateView {
        StateView { table: self.table.update(i, Resolution::Guessing(v)), ..self }
    }

    /// The state with the verdict `v` for the order at `i`.
    pub open spec fn settle(self, i: int, v: bool) -> StateView {
        StateView { table: self.table.update(i, Resolution::Resolved(v)), ..self }
    }

    /// The state in which the order at `i` is known to rest on a guess.
    pub open spec fn note(self, i: usize) -> StateView {
        if self.deps.contains(i) {
            self
        } else {
            StateView { deps: self.deps.push(i), ..self }
        }
    }

    /// The state in which the order at `i` has the verdict `v` as long as
    /// the guesses that it rests on stand.
    pub open spec fn hold(self, i: usize, v: bool) -> StateView {
        self.guess(i as int, v).note(i)
    }

    /// The tables have one entry for each of `n` orders, and every order
    /// that is noted as resting on a guess has such an entry.
    pub open spec fn wf(self, n: nat) -> bool {
        &&& self.table.len() == n
        &&& self.paradox.len() == n
        &&& forall|k: int| 0 <= k < self.deps.len() ==> (#[trigger] self.deps[k]) < n
        &&& forall|k: int|
            0 <= k < self.deps.len() ==> self.table[(#[trigger] self.deps[k]) as int] is Guessing
    }

    /// Every order has its verdict.
    pub open spec fn all_resolved(self) -> bool {
        forall|j: int| 0 <= j < self.table.len() ==> (#[trigger] self.table[j]) is Resolved
    }

    /// No entry rests on a guess.
    pub open spec fn no_guess(self) -> bool {
        self.deps.len() == 0 && forall|j: int|
            0 <= j < self.table.len() ==> !((#[trigger] self.table[j]) is Guessing)
    }

    /// The verdicts of the table, each as a rule is told it.
    pub open spec fn seen(self) -> Seen {
        Seq::new(
            self.table.len(),
            |j: int|
                match self.table[j] {
                    Resolution::Unresolved => None,
                    Resolution::Guessing(v) => Some(v),
                    Resolution::Resolved(v) => Some(v),
                },
        )
    }
}

/// Nothing told of `n` orders.
pub open spec fn blank(n: nat) -> Seen {
    Seq::new(n, |j: int| None)
}

/// For each order, whether its verdict has not been told.
pub open spec fn unseen_mask(seen: Seen) -> Seq<bool> {
    Seq::new(seen.len(), |j: int| seen[j] is None)
}

/// The number of orders whose verdict has not been told.
pub open spec fn unseen(seen: Seen) -> nat {
    count_true(unseen_mask(seen))
}

/// Whether one of the orders that `after` notes beyond those of `before`
/// was a guess in `before`.
pub open spec fn outer_guess(before: StateView, after: StateView) -> bool {
    exists|k: int|
        before.deps.len() <= k < after.deps.len() && (#[trigger] after.deps[k])
            < before.table.len() && before.table[after.deps[k] as int] is Guessing
}

/// What a step of the resolution may do to the state: verdicts and guesses
/// stay, the noted orders are added to, every new guess is noted, and
/// where an order was noted, one of the noted orders was a guess before.
pub open spec fn extends(a: StateView, b: StateView) -> bool {
    &&& b.table.len() == a.table.len()
    &&& b.paradox.len() == a.paradox.len()
    &&& forall|j: int|
        0 <= j < a.table.len() && !((#[trigger] a.table[j]) is Unresolved) ==> b.table[j]
            == a.table[j]
    &&& a.deps.len() <= b.deps.len()
    &&& forall|k: int| 0 <= k < a.deps.len() ==> #[trigger] b.deps[k] == a.deps[k]
    &&& (b.deps.len() > a.deps.len() ==> outer_guess(a, b))
    &&& forall|j: int|
        0 <= j < b.table.len() && (#[trigger] b.table[j]) is Guessing ==> a.table[j] is Guessing
            || noted_since(a, b, j)
}

/// Whether `b` notes the order at `j` beyond the orders that `a` notes.
pub open spec fn noted_since(a: StateView, b: StateView, j: int) -> bool {
    exists|k: int| a.deps.len() <= k < b.deps.len() && #[trigger] b.deps[k] == j
}

/// Steps can be chained.
pub proof fn lemma_extends_trans(a: StateView, b: StateView, c: StateView)
    requires
        extends(a, b),
        extends(b, c),
    ensures
        extends(a, c),
{
    assert forall|j: int| 0 <= j < c.table.len() && (#[trigger] c.table[j]) is Guessing implies a.table[j] is Guessing
        || noted_since(a, c, j) by {
        if b.table[j] is Guessing {
            if !(a.table[j] is Guessing) {
                let k = choose|k: int| a.deps.len() <= k < b.deps.len() && #[trigger] b.deps[k] == j;
                assert(c.deps[k] == b.deps[k]);
            }
        } else {
            let k = choose|k: int| b.deps.len() <= k < c.deps.len() && #[trigger] c.deps[k] == j;
        }
    }
    if c.deps.len() > a.deps.len() {
        if b.deps.len() > a.deps.len() {
            let k = choose|k: int|
                a.deps.len() <= k < b.deps.len() && (#[trigger] b.deps[k]) < a.table.len()
                    && a.table[b.deps[k] as int] is Guessing;
            assert(c.deps[k] == b.deps[k]);
        } else {
            let k = choose|k: int|
                b.deps.len() <= k < c.deps.len() && (#[trigger] c.deps[k]) < b.table.len()
                    && b.table[c.deps[k] as int] is Guessing;
        }
    }
}

/// A step leaves no more orders unknown than there were.
pub proof fn lemma_extends_pending(a: StateView, b: StateView)
    requires
        extends(a, b),
    ensures
        b.pending() <= a.pending(),
{
    lemma_count_true_mono(a.pending_mask(), b.pending_mask());
}

/// Saying something of an order of which nothing was known leaves fewer
/// orders unknown.
pub proof fn lemma_pending_less(a: StateView, i: int, r: Resolution)
    requires
        0 <= i < a.table.len(),
        a.table[i] is Unresolved,
        !(r is Unresolved),
    ensures
        (StateView { table: a.table.update(i, r), ..a }).pending() < a.pending(),
{
    let b = StateView { table: a.table.update(i, r), ..a };
    assert(a.pending_mask()[i] && !b.pending_mask()[i]);
    lemma_count_true_mono(a.pending_mask(), b.pending_mask());
}

/// Telling one more verdict leaves fewer untold.
pub proof fn lemma_unseen_less(seen: Seen, j: int, v: bool)
    requires
        0 <= j < seen.len(),
        seen[j] is None,
    ensures
        unseen(seen.update(j, Some(v))) < unseen(seen),
{
    let t = seen.update(j, Some(v));
    assert(unseen_mask(seen)[j] && !unseen_mask(t)[j]);
    lemma_count_true_mono(unseen_mask(seen), unseen_mask(t));
}

/// The state after the backup rule was applied to the first `k` orders of
/// a circle. In a circle of moves every move succeeds. In any other circle
/// every convoy fails and is marked as part of a paradox. Only orders of
/// which nothing was known are touched.
pub open spec fn backup_upto(
    cx: ContextView,
    st: StateView,
    cycle: Seq<usize>,
    all_moves: bool,
    k: int,
) -> StateView
    decreases k,
{
    if k <= 0 {
        st
    } else {
        let prev = backup_upto(cx, st, cycle, all_moves, k - 1);
        let e = cycle[k - 1] as int;
        if 0 <= e < prev.table.len() && e < prev.paradox.len() && e < cx.orders.len()
            && prev.table[e] is Unresolved {
            if all_moves {
                prev.settle(e, true)
            } else if cx.orders[e].command is Convoy {
                StateView { paradox: prev.paradox.update(e, true), ..prev.settle(e, false) }
            } else {
                prev
            }
        } else {
            prev
        }
    }
}

/// Whether every order of the circle is a move.
pub open spec fn all_moves(cx: ContextView, cycle: Seq<usize>) -> bool {
    forall|k: int|
        0 <= k < cycle.len() ==> (#[trigger] cycle[k]) < cx.orders.len()
            && cx.orders[cycle[k] as int].is_move()
}

/// The state after the backup rule was applied to a circle.
pub open spec fn backup(cx: ContextView, st: StateView, cycle: Seq<usize>) -> StateView {
    backup_upto(cx, st, cycle, all_moves(cx, cycle), cycle.len() as int)
}

/// The backup rule gives verdicts to orders of which nothing was known,
/// and touches nothing else.
pub proof fn lemma_backup_upto(
    cx: ContextView,
    st: StateView,
    cycle: Seq<usize>,
    am: bool,
    k: int,
)
    requires
        st.paradox.len() == st.table.len(),
    ensures
        ({
            let b = backup_upto(cx, st, cycle, am, k);
            &&& b.table.len() == st.table.len()
            &&& b.paradox.len() == st.paradox.len()
            &&& b.deps == st.deps
            &&& forall|j: int|
                0 <= j < st.table.len() && !((#[trigger] st.table[j]) is Unresolved) ==> b.table[j]
                    == st.table[j]
            &&& forall|j: int|
                0 <= j < st.table.len() ==> (#[trigger] b.table[j]) is Resolved || b.table[j]
                    == st.table[j]
        }),
    decreases k,
{
    if k > 0 {
        lemma_backup_upto(cx, st, cycle, am, k - 1);
    }
}

/// What the rules make of the order at `i` in the state `st`, given the
/// verdicts in `seen` that they were told so far: the rules are asked; when
/// they need a verdict, it is resolved and told, and they are asked again.
pub open spec fn evaluate_spec<A: Adjudicate>(
    rules: A,
    cx: ContextView,
    st: StateView,
    seen: Seen,
    i: int,
) -> (StateView, bool)
    decreases st.pending(), 1nat, unseen(seen),
{
    match rules.decide(cx, st.paradox, seen, i) {
        Step::Done(out) => (st, out.succeeds()),
        Step::Need(j) => {
            if j < seen.len() && seen[j as int] is None {
                let next = resolve_spec(rules, cx, st, j as int);
                if next.0.pending() <= st.pending() {
                    proof {
                        lemma_unseen_less(seen, j as int, next.1);
                    }
                    evaluate_spec(rules, cx, next.0, seen.update(j as int, Some(next.1)), i)
                } else {
                    (st, false)
                }
            } else {
                (st, false)
            }
        },
    }
}

/// The verdict of the order at `i`, and the state after it was found.
///
/// A verdict that is known is returned. A guess is returned too, and the
/// order is noted as one that others now rest on. Of an order of which
/// nothing is known, failure is guessed and the rules are asked.
/// - If the answer rests on no guess, it is the verdict.
/// - If it rests on the guess of an order that is being adjudicated further
///   out, it stands as long as that guess stands, and the order is noted.
/// - Else it rests on the order's own guess. Everything that was found on
///   the way is forgotten, success is guessed, and the rules are asked
///   again. If both answers agree, that is the verdict. If they differ, the
///   backup rule is applied to the orders that rested on the first guess,
///   and the order is resolved anew; where the backup rule changed
///   nothing, the order fails.
pub open spec fn resolve_spec<A: Adjudicate>(rules: A, cx: ContextView, st: StateView, i: int) -> (
    StateView,
    bool,
)
    decreases st.pending(), 0nat, 0nat,
{
    if !(0 <= i < st.table.len()) {
        (st, false)
    } else {
        match st.table[i] {
            Resolution::Resolved(v) => (st, v),
            Resolution::Guessing(v) => (st.note(i as usize), v),
            Resolution::Unresolved => {
                proof {
                    lemma_pending_less(st, i, Resolution::Guessing(false));
                    lemma_pending_less(st, i, Resolution::Guessing(true));
                }
                let first = evaluate_spec(
                    rules,
                    cx,
                    st.guess(i, false),
                    blank(st.table.len()),
                    i,
                );
                if first.0.deps.len() <= st.deps.len() {
                    (first.0.settle(i, first.1), first.1)
                } else if outer_guess(st, first.0) {
                    (first.0.hold(i as usize, first.1), first.1)
                } else {
                    let second = evaluate_spec(
                        rules,
                        cx,
                        st.guess(i, true),
                        blank(st.table.len()),
                        i,
                    );
                    if first.1 == second.1 {
                        (st.settle(i, first.1), first.1)
                    } else {
                        let st3 = backup(cx, st, first.0.deps.skip(st.deps.len() as int));
                        match st3.table[i] {
                            Resolution::Resolved(v) => (st3, v),
                            _ => if st3.pending() < st.pending() {
                                resolve_spec(rules, cx, st3, i)
                            } else {
                                (st.settle(i, false), false)
                            },
                        }
                    }
                }
            },
        }
    }
}

/// The state after the first `k` orders were resolved, one after the
/// other, from a state in which nothing is known.
pub open spec fn resolve_all_upto<A: Adjudicate>(rules: A, cx: ContextView, k: int) -> StateView
    decreases k,
{
    if k <= 0 {
        StateView {
            table: Seq::new(cx.orders.len(), |j: int| Resolution::Unresolved),
            deps: Seq::empty(),
            paradox: Seq::new(cx.orders.len(), |j: int| false),
        }
    } else {
        resolve_spec(rules, cx, resolve_all_upto(rules, cx, k - 1), k - 1).0
    }
}

/// The state after every order was resolved.
pub open spec fn resolve_all<A: Adjudicate>(rules: A, cx: ContextView) -> StateView {
    resolve_all_upto(rules, cx, cx.orders.len() as int)
}

/// A copy of a table.
fn copy_table(v: &Vec<Resolution>) -> (r: Vec<Resolution>)
    ensures
        r@ == v@,
{
    let mut out: Vec<Resolution> = Vec::new();
    let mut i: usize = 0;
    while i < v.len()
        invariant
            i <= v.len(),
            out@.len() == i,
            forall|k: int| 0 <= k < i ==> out@[k] == v@[k],
        decreases v.len() - i,
    {
        out.push(v[i]);
        i += 1;
    }
    out
}

/// A copy of a list of flags.
fn copy_flags(v: &Vec<bool>) -> (r: Vec<bool>)
    ensures
        r@ == v@,
{
    let mut out: Vec<bool> = Vec::new();
    let mut i: usize = 0;
    while i < v.len()
        invariant
            i <= v.len(),
            out@.len() == i,
            forall|k: int| 0 <= k < i ==> out@[k] == v@[k],
        decreases v.len() - i,
    {
        out.push(v[i]);
        i += 1;
    }
    out
}

/// The mutable caches of a main-phase resolution: what is known of each
/// order, and which entries rest on a guess.
pub struct ResolverState<A: Adjudicate> {
    adjudicator: A,
    table: Vec<Resolution>,
    deps: Vec<usize>,
    paradox: Vec<bool>,
}

impl<A: Adjudicate> View for ResolverState<A> {
    type V = StateView;

    closed spec fn view(&self) -> StateView {
        StateView { table: self.table@, deps: self.deps@, paradox: self.paradox@ }
    }
}

impl<A: Adjudicate> ResolverState<A> {
    /// The rules that the resolver asks.
    pub closed spec fn rules(&self) -> A {
        self.adjudicator
    }

    /// The state in which nothing is known of any of `orders` orders.
    pub fn with_adjudicator(adjudicator: A, orders: usize) -> (r: ResolverState<A>)
        ensures
            r.rules() == adjudicator,
            r@ == (StateView {
                table: Seq::new(orders as nat, |j: int| Resolution::Unresolved),
                deps: Seq::empty(),
                paradox: Seq::new(orders as nat, |j: int| false),
            }),
            r@.wf(orders as nat),
            r@.no_guess(),
    {
        let mut table: Vec<Resolution> = Vec::new();
        let mut paradox: Vec<bool> = Vec::new();
        let mut i: usize = 0;
        while i < orders
            invariant
                i <= orders,
                table@.len() == i,
                paradox@.len() == i,
                forall|k: int| 0 <= k < i ==> table@[k] == Resolution::Unresolved,
                forall|k: int| 0 <= k < i ==> paradox@[k] == false,
            decreases orders - i,
        {
            table.push(Resolution::Unresolved);
            paradox.push(false);
            i += 1;
        }
        let r = ResolverState { adjudicator, table, deps: Vec::new(), paradox };
        assert(r@.table =~= Seq::new(orders as nat, |j: int| Resolution::Unresolved));
        assert(r@.paradox =~= Seq::new(orders as nat, |j: int| false));
        r
    }

    /// What is known of the order at `i`.
    pub fn entry(&self, i: usize) -> (r: Resolution)
        requires
            i < self@.table.len(),
        ensures
            r == self@.table[i as int],
    {
        self.table[i]
    }

    /// The convoys that a paradox has failed.
    pub fn paradox_flags(&self) -> (r: &Vec<bool>)
        ensures
            r@ == self@.paradox,
    {
        &self.paradox
    }

    /// The rules that the resolver asks.
    pub fn adjudicator(&self) -> (r: &A)
        ensures
            *r == self.rules(),
    {
        &self.adjudicator
    }

    /// Whether one of the orders noted from place `from` on was a guess in
    /// the table `before`.
    fn rests_on_outer_guess(&self, before: &Vec<Resolution>, from: usize) -> (r: bool)
        requires
            from <= self@.deps.len(),
            before@.len() == self@.table.len(),
            forall|k: int| 0 <= k < self@.deps.len() ==> (#[trigger] self@.deps[k]) < before@.len(),
        ensures
            r == exists|k: int|
                from <= k < self@.deps.len() && (#[trigger] self@.deps[k]) < before@.len()
                    && before@[self@.deps[k] as int] is Guessing,
    {
        let mut k: usize = from;
        while k < self.deps.len()
            invariant
                from <= k <= self.deps.len(),
                forall|w: int| 0 <= w < self@.deps.len() ==> (#[trigger] self@.deps[w]) < before@.len(),
                forall|w: int|
                    from <= w < k ==> !(before@[(#[trigger] self@.deps[w]) as int] is Guessing),
            decreases self.deps.len() - k,
        {
            match before[self.deps[k]] {
                Resolution::Guessing(_) => {
                    return true;
                },
                _ => {},
            }
            k += 1;
        }
        false
    }

    /// Applies the backup rule to a circle of orders. Says whether it gave
    /// a verdict to any of them.
    fn apply_backup_rule(&mut self, ctx: &ResolverContext<'_>, cycle: &Vec<usize>) -> (progressed:
        bool)
        requires
            old(self)@.wf(ctx@.orders.len()),
        ensures
            final(self)@ == backup(ctx@, old(self)@, cycle@),
            final(self).rules() == old(self).rules(),
            progressed == (final(self)@.pending() < old(self)@.pending()),
            !progressed ==> final(self)@ == old(self)@,
    {
        let ghost start = self@;
        let ghost cx = ctx@;
        let n: usize = ctx.len();
        let mut only_moves = true;
        let mut c: usize = 0;
        while c < cycle.len()
            invariant
                c <= cycle.len(),
                n == cx.orders.len(),
                cx == ctx@,
                only_moves == forall|k: int|
                    0 <= k < c ==> (#[trigger] cycle@[k]) < cx.orders.len()
                        && cx.orders[cycle@[k] as int].is_move(),
            decreases cycle.len() - c,
        {
            if cycle[c] >= n || !ctx.order(cycle[c]).is_move() {
                only_moves = false;
            }
            c += 1;
        }
        let mut progressed = false;
        let mut k: usize = 0;
        while k < cycle.len()
            invariant
                k <= cycle.len(),
                n == cx.orders.len(),
                cx == ctx@,
                start.wf(n as nat),
                self.rules() == old(self).rules(),
                self@ == backup_upto(cx, start, cycle@, only_moves, k as int),
                self@.table.len() == n,
                self@.paradox.len() == n,
                progressed ==> self@.pending() < start.pending(),
                !progressed ==> self@ == start,
            decreases cycle.len() - k,
        {
            let e: usize = cycle[k];
            let ghost prev = self@;
            if e < n {
                match self.table[e] {
                    Resolution::Unresolved => {
                        if only_moves {
                            self.table[e] = Resolution::Resolved(true);
                            proof {
                                lemma_pending_less(prev, e as int, Resolution::Resolved(true));
                            }
                            progressed = true;
                        } else {
                            let is_convoy = match ctx.order(e).command {
                                MainCommand::Convoy(_) => true,
                                _ => false,
                            };
                            if is_convoy {
                                self.table[e] = Resolution::Resolved(false);
                                self.paradox[e] = true;
                                proof {
                                    lemma_pending_less(prev, e as int, Resolution::Resolved(false));
                                }
                                progressed = true;
                            }
                        }
                    },
                    _ => {},
                }
            }
            k += 1;
        }
        progressed
    }

    /// Asks the rules about the order at `i`, resolving each verdict that
    /// they need, until they give their answer.
    fn evaluate(&mut self, ctx: &ResolverContext<'_>, i: usize) -> (r: bool)
        requires
            ctx.wf(),
            old(self)@.wf(ctx@.orders.len()),
            i < ctx@.orders.len(),
        ensures
            (final(self)@, r) == evaluate_spec(
                old(self).rules(),
                ctx@,
                old(self)@,
                blank(ctx@.orders.len()),
                i as int,
            ),
            final(self).rules() == old(self).rules(),
            final(self)@.wf(ctx@.orders.len()),
            extends(old(self)@, final(self)@),
        decreases old(self)@.pending(), 1nat, unseen(blank(ctx@.orders.len())),
    {
        let ghost start = self@;
        let ghost rules = self.rules();
        let ghost cx = ctx@;
        let n: usize = ctx.len();
        let mut seen: Vec<Option<bool>> = Vec::new();
        let mut c: usize = 0;
        while c < n
            invariant
                c <= n,
                seen@.len() == c,
                forall|k: int| 0 <= k < c ==> seen@[k] == None::<bool>,
            decreases n - c,
        {
            seen.push(None);
            c += 1;
        }
        assert(seen@ =~= blank(n as nat));
        loop
            invariant
                ctx.wf(),
                cx == ctx@,
                n == cx.orders.len(),
                i < n,
                rules == self.rules(),
                rules == old(self).rules(),
                start == old(self)@,
                seen@.len() == n,
                self@.wf(n as nat),
                extends(start, self@),
                unseen(seen@) <= unseen(blank(n as nat)),
                evaluate_spec(rules, cx, self@, seen@, i as int) == evaluate_spec(
                    rules,
                    cx,
                    start,
                    blank(n as nat),
                    i as int,
                ),
            decreases unseen(seen@),
        {
            let step = self.adjudicator.explain(ctx, &self.paradox, &seen, i);
            match step {
                Step::Done(out) => {
                    return out.is_successful();
                },
                Step::Need(j) => {
                    let ghost before = self@;
                    let ghost seen_before = seen@;
                    proof {
                        lemma_extends_pending(start, before);
                    }
                    let v = self.resolve(ctx, j);
                    seen[j] = Some(v);
                    proof {
                        lemma_extends_pending(before, self@);
                        lemma_extends_trans(start, before, self@);
                        lemma_unseen_less(seen_before, j as int, v);
                    }
                },
            }
        }
    }

    /// Resolve whether an order succeeds or fails, possibly updating the
    /// resolver's state in the process.
    pub fn resolve_at(&mut self, ctx: &ResolverContext<'_>, i: usize) -> (r: OrderState)
        requires
            ctx.wf(),
            old(self)@.wf(ctx@.orders.len()),
            i < ctx@.orders.len(),
        ensures
            final(self)@ == resolve_spec(old(self).rules(), ctx@, old(self)@, i as int).0,
            r == OrderState::of(resolve_spec(old(self).rules(), ctx@, old(self)@, i as int).1),
            final(self).rules() == old(self).rules(),
            final(self)@.wf(ctx@.orders.len()),
            extends(old(self)@, final(self)@),
            final(self)@.table[i as int] == Resolution::Resolved(r.holds())
                || final(self)@.table[i as int] == Resolution::Guessing(r.holds()),
    {
        if self.resolve(ctx, i) {
            OrderState::Succeeds
        } else {
            OrderState::Fails
        }
    }

    /// The verdict of the order at `i`, as a flag.
    fn resolve(&mut self, ctx: &ResolverContext<'_>, i: usize) -> (r: bool)
        requires
            ctx.wf(),
            old(self)@.wf(ctx@.orders.len()),
            i < ctx@.orders.len(),
        ensures
            (final(self)@, r) == resolve_spec(old(self).rules(), ctx@, old(self)@, i as int),
            final(self).rules() == old(self).rules(),
            final(self)@.wf(ctx@.orders.len()),
            extends(old(self)@, final(self)@),
            final(self)@.table[i as int] == Resolution::Resolved(r) || final(self)@.table[i as int]
                == Resolution::Guessing(r),
        decreases old(self)@.pending(), 0nat, 0nat,
    {
        let ghost st = self@;
        let ghost cx = ctx@;
        match self.table[i] {
            Resolution::Resolved(v) => v,
            Resolution::Guessing(v) => {
                if !has_index(&self.deps, i) {
                    self.deps.push(i);
                    proof {
                        assert(self@.deps[st.deps.len() as int] == i);
                    }
                }
                v
            },
            Resolution::Unresolved => {
                let snap_table = copy_table(&self.table);
                let snap_deps = clone_indices(&self.deps);
                let snap_paradox = copy_flags(&self.paradox);
                let old_len: usize = self.deps.len();
                self.table[i] = Resolution::Guessing(false);
                let ghost g1 = self@;
                proof {
                    lemma_pending_less(st, i as int, Resolution::Guessing(false));
                    lemma_pending_less(st, i as int, Resolution::Guessing(true));
                }
                let r1 = self.evaluate(ctx, i);
                let ghost s1 = self@;
                if self.deps.len() <= old_len {
                    self.table[i] = Resolution::Resolved(r1);
                    return r1;
                }
                if self.rests_on_outer_guess(&snap_table, old_len) {
                    self.table[i] = Resolution::Guessing(r1);
                    if !has_index(&self.deps, i) {
                        self.deps.push(i);
                    }
                    proof {
                        lemma_held_extends(st, g1, s1, i, r1);
                    }
                    return r1;
                }
                let mut cycle: Vec<usize> = Vec::new();
                let mut c: usize = old_len;
                while c < self.deps.len()
                    invariant
                        old_len <= c <= self.deps.len(),
                        cycle@.len() == c - old_len,
                        forall|k: int| 0 <= k < cycle@.len() ==> cycle@[k] == self.deps@[old_len + k],
                    decreases self.deps.len() - c,
                {
                    cycle.push(self.deps[c]);
                    c += 1;
                }
                assert(cycle@ =~= s1.deps.skip(old_len as int));
                self.table = copy_table(&snap_table);
                self.deps = clone_indices(&snap_deps);
                self.paradox = copy_flags(&snap_paradox);
                self.table[i] = Resolution::Guessing(true);
                let r2 = self.evaluate(ctx, i);
                self.table = snap_table;
                self.deps = snap_deps;
                self.paradox = snap_paradox;
                if r1 == r2 {
                    self.table[i] = Resolution::Resolved(r1);
                    return r1;
                }
                let progressed = self.apply_backup_rule(ctx, &cycle);
                proof {
                    lemma_backup_upto(cx, st, cycle@, all_moves(cx, cycle@), cycle@.len() as int);
                }
                match self.table[i] {
                    Resolution::Resolved(v) => v,
                    _ => {
                        if progressed {
                            self.resolve(ctx, i)
                        } else {
                            self.table[i] = Resolution::Resolved(false);
                            false
                        }
                    },
                }
            },
        }
    }

    /// Resolves every order, one after the other. Every order then has its
    /// verdict.
    pub fn resolve_every(&mut self, ctx: &ResolverContext<'_>)
        requires
            ctx.wf(),
            old(self)@ == resolve_all_upto(old(self).rules(), ctx@, 0),
        ensures
            final(self)@ == resolve_all(old(self).rules(), ctx@),
            final(self).rules() == old(self).rules(),
            final(self)@.wf(ctx@.orders.len()),
            final(self)@.all_resolved(),
    {
        let n: usize = ctx.len();
        let ghost rules = self.rules();
        let mut i: usize = 0;
        while i < n
            invariant
                i <= n,
                ctx.wf(),
                n == ctx@.orders.len(),
                rules == self.rules(),
                self@ == resolve_all_upto(rules, ctx@, i as int),
                self@.wf(n as nat),
                self@.no_guess(),
                forall|j: int| 0 <= j < i ==> (#[trigger] self@.table[j]) is Resolved,
            decreases n - i,
        {
            let ghost before = self@;
            self.resolve(ctx, i);
            proof {
                let after = self@;
                if after.deps.len() > before.deps.len() {
                    assert(false);
                }
            }
            i += 1;
        }
    }
}

/// The answer of the rules that rested on an outer guess stands for now:
/// the state that it leaves extends the one before the guess.
proof fn lemma_held_extends(st: StateView, g1: StateView, s1: StateView, i: usize, r1: bool)
    requires
        i < st.table.len(),
        st.table[i as int] is Unresolved,
        st.wf(st.table.len()),
        g1 == st.guess(i as int, false),
        extends(g1, s1),
        s1.wf(st.table.len()),
        outer_guess(st, s1),
    ensures
        extends(st, s1.hold(i, r1)),
        s1.hold(i, r1).wf(st.table.len()),
{
    let b = s1.hold(i, r1);
    assert forall|j: int|
        0 <= j < st.table.len() && !((#[trigger] st.table[j]) is Unresolved) implies b.table[j]
        == st.table[j] by {
    }
    let w = choose|w: int|
        st.deps.len() <= w < s1.deps.len() && (#[trigger] s1.deps[w]) < st.table.len()
            && st.table[s1.deps[w] as int] is Guessing;
    assert(b.deps[w] == s1.deps[w]);
    assert forall|j: int| 0 <= j < b.table.len() && (#[trigger] b.table[j]) is Guessing implies st.table[j] is Guessing
        || noted_since(st, b, j) by {
        if j == i as int {
            if s1.deps.contains(i) {
                let k = choose|k: int| 0 <= k < s1.deps.len() && s1.deps[k] == i;
                if k < st.deps.len() {
                    assert(false);
                }
            } else {
                assert(b.deps[s1.deps.len() as int] == i);
            }
        } else {
            if !(g1.table[j] is Guessing) {
                let k = choose|k: int| g1.deps.len() <= k < s1.deps.len() && #[trigger] s1.deps[k] == j;
                assert(b.deps[k] == j);
            }
        }
    }
}

} // verus!

//! The read-only inputs of a main-phase resolution.
use vstd::prelude::*;
use crate::geo::key::ProvinceKey;
use crate::geo::map::{WorldMap, WorldMapView};
use crate::order::{Order, OrderView};
use crate::seqs::{first_true, lemma_first_true_is, lemma_first_true_none};

verus! {

/// The views of a vector of orders.
pub open spec fn orders_view(orders: Seq<Order>) -> Seq<OrderView> {
    Seq::new(orders.len(), |i: int| orders[i]@)
}

/// The first `k` of the orders, each once: an order that was given before
/// is left out.
pub open spec fn distinct_upto(given: Seq<OrderView>, k: int) -> Seq<OrderView>
    decreases k,
{
    if k <= 0 {
        Seq::empty()
    } else {
        let rest = distinct_upto(given, k - 1);
        if rest.contains(given[k - 1]) {
            rest
        } else {
            rest.push(given[k - 1])
        }
    }
}

/// The orders, each once, in the order in which each was first given.
pub open spec fn distinct(given: Seq<OrderView>) -> Seq<OrderView> {
    distinct_upto(given, given.len() as int)
}

/// No order stands twice in the sequence.
pub open spec fn no_order_twice(orders: Seq<OrderView>) -> bool {
    forall|i: int, j: int| 0 <= i < j < orders.len() ==> orders[i] != orders[j]
}

/// `distinct_upto` holds no order twice, holds each of the first `k` given
/// orders, and holds given orders only.
pub proof fn lemma_distinct_upto(given: Seq<OrderView>, k: int)
    requires
        0 <= k <= given.len(),
    ensures
        no_order_twice(distinct_upto(given, k)),
        distinct_upto(given, k).len() <= k,
        forall|j: int| 0 <= j < k ==> distinct_upto(given, k).contains(#[trigger] given[j]),
        forall|i: int|
            0 <= i < distinct_upto(given, k).len() ==> given.contains(
                #[trigger] distinct_upto(given, k)[i],
            ),
    decreases k,
{
    if k > 0 {
        lemma_distinct_upto(given, k - 1);
        let rest = distinct_upto(given, k - 1);
        let cur = distinct_upto(given, k);
        if rest.contains(given[k - 1]) {
        } else {
            assert(cur[rest.len() as int] == given[k - 1]);
            assert forall|j: int| 0 <= j < k implies cur.contains(#[trigger] given[j]) by {
                if j < k - 1 {
                    let w = choose|w: int| 0 <= w < rest.len() && rest[w] == given[j];
                    assert(cur[w] == given[j]);
                }
            }
        }
    }
}

pub struct ContextView {
    pub map: WorldMapView,
    pub orders: Seq<OrderView>,
}

impl ContextView {
    /// For each order, whether its unit stands in the province.
    pub open spec fn stands_mask(self, p: Seq<u8>) -> Seq<bool> {
        Seq::new(self.orders.len(), |k: int| self.orders[k].region.province == p)
    }

    /// The place of the first order whose unit stands in the province.
    pub open spec fn occupier(self, p: Seq<u8>) -> Option<int> {
        first_true(self.stands_mask(p), 0)
    }

    /// The board is well formed, no order stands twice, and the orders can
    /// be counted.
    pub open spec fn wf(self) -> bool {
        self.map.wf() && no_order_twice(self.orders) && self.orders.len() < usize::MAX
    }
}

/// The read-only inputs of a main-phase resolution: the board and the
/// orders of the turn, each once.
pub struct ResolverContext<'a> {
    world_map: &'a WorldMap,
    orders: Vec<Order>,
}

impl<'a> View for ResolverContext<'a> {
    type V = ContextView;

    closed spec fn view(&self) -> ContextView {
        ContextView { map: self.world_map@, orders: orders_view(self.orders@) }
    }
}

/// Whether the order is among the given ones.
pub fn has_order(orders: &Vec<Order>, order: &Order) -> (r: bool)
    ensures
        r == orders_view(orders@).contains(order@),
{
    let mut i: usize = 0;
    while i < orders.len()
        invariant
            i <= orders.len(),
            forall|j: int| 0 <= j < i ==> orders_view(orders@)[j] != order@,
        decreases orders.len() - i,
    {
        if orders[i].eq(order) {
            assert(orders_view(orders@)[i as int] == order@);
            return true;
        }
        i += 1;
    }
    false
}

impl<'a> ResolverContext<'a> {
    /// Whether the context is well formed: the board is, and no order
    /// stands twice. `new` sees to the orders.
    pub open spec fn wf(&self) -> bool {
        self@.wf()
    }

    /// Creates a new resolver context for a set of orders on a board. An
    /// order that is given more than once counts once.
    pub fn new(world_map: &'a WorldMap, orders: Vec<Order>) -> (r: ResolverContext<'a>)
        requires
            orders@.len() < usize::MAX,
        ensures
            r@.map == world_map@,
            r@.orders == distinct(orders_view(orders@)),
            no_order_twice(r@.orders),
            r@.orders.len() < usize::MAX,
    {
        let ghost given = orders_view(orders@);
        let mut kept: Vec<Order> = Vec::new();
        let mut i: usize = 0;
        while i < orders.len()
            invariant
                i <= orders.len(),
                given == orders_view(orders@),
                orders_view(kept@) == distinct_upto(given, i as int),
            decreases orders.len() - i,
        {
            if !has_order(&kept, &orders[i]) {
                kept.push(orders[i].clone());
            }
            i += 1;
        }
        proof {
            lemma_distinct_upto(given, given.len() as int);
        }
        ResolverContext { world_map, orders: kept }
    }

    /// The board against which the orders were issued.
    pub fn world_map(&self) -> (r: &'a WorldMap)
        ensures
            r@ == self@.map,
    {
        self.world_map
    }

    /// The orders of the turn, each once.
    pub fn orders(&self) -> (r: &Vec<Order>)
        ensures
            orders_view(r@) == self@.orders,
            r@.len() == self@.orders.len(),
    {
        &self.orders
    }

    /// The order at a place.
    pub fn order(&self, i: usize) -> (r: &Order)
        requires
            i < self@.orders.len(),
        ensures
            r@ == self@.orders[i as int],
    {
        &self.orders[i]
    }

    /// The number of orders.
    pub fn len(&self) -> (r: usize)
        ensures
            r == self@.orders.len(),
    {
        self.orders.len()
    }

    /// The place of the first order whose unit stands in the province.
    pub fn occupier(&self, province: &ProvinceKey) -> (r: Option<usize>)
        ensures
            r is Some == self@.occupier(province@) is Some,
            r is Some ==> r->0 == self@.occupier(province@)->0 && r->0 < self@.orders.len()
                && self@.orders[r->0 as int].region.province == province@,
            r is None ==> forall|k: int|
                0 <= k < self@.orders.len() ==> (#[trigger] self@.orders[k]).region.province
                    != province@,
    {
        let ghost mask = self@.stands_mask(province@);
        let mut i: usize = 0;
        while i < self.orders.len()
            invariant
                i <= self.orders.len(),
                mask == self@.stands_mask(province@),
                forall|j: int| 0 <= j < i ==> !mask[j],
            decreases self.orders.len() - i,
        {
            if self.orders[i].region.is_in(province) {
                proof {
                    lemma_first_true_is(mask, 0, i as int);
                }
                return Some(i);
            }
            i += 1;
        }
        proof {
            lemma_first_true_none(mask, 0);
            assert forall|k: int| 0 <= k < self@.orders.len() implies (
            #[trigger] self@.orders[k]).region.province != province@ by {
                assert(!mask[k]);
            }
        }
        None
    }

    /// The place of the order, if it is one of the orders of the turn.
    pub fn index_of(&self, order: &Order) -> (r: Option<usize>)
        ensures
            r is Some == self@.orders.contains(order@),
            r is Some ==> r->0 < self@.orders.len() && self@.orders[r->0 as int] == order@,
    {
        let mut i: usize = 0;
        while i < self.orders.len()
            invariant
                i <= self.orders.len(),
                forall|j: int| 0 <= j < i ==> self@.orders[j] != order@,
            decreases self.orders.len() - i,
        {
            if self.orders[i].eq(order) {
                assert(self@.orders[i as int] == order@);
                return Some(i);
            }
            i += 1;
        }
        None
    }
}

} // verus!

//! Convoy routes: chains of fleets that carry an army across the sea.
use vstd::prelude::*;
use crate::geo::key::ProvinceKey;
use crate::geo::map::{WorldMap, WorldMapView};
use crate::judge::context::{ContextView, orders_view, ResolverContext};
use crate::judge::step::{all_hits, all_hits_upto, asks_unseen, lemma_all_hits_need, Seen, Step,
    verdict_of, verdict_step};
use crate::order::{carries, CommandView, MainCommand, Order, OrderView};
use crate::seqs::{count_true, lemma_count_true_mono};
use crate::unit::UnitType;

verus! {

/// Failure cases for convoy route lookup.
#[derive(Debug, Clone, Copy, PartialEq, Eq, Structural)]
pub enum ConvoyRouteError {
    /// Only armies can be convoyed.
    CanOnlyConvoyArmy,
    /// Hold, support, and convoy orders cannot be convoyed.
    CanOnlyConvoyMove,
}

/// Whether `convoy` is an order to carry the move `mv`.
pub open spec fn is_convoy_for_spec(convoy: OrderView, mv: OrderView) -> bool {
    convoy.command matches CommandView::Convoy(from, to) && carries(from, to, mv)
}

/// Checks whether `convoy` is a valid convoy that will carry `mv_ord` from
/// its current location to the destination.
pub fn is_convoy_for(convoy: &Order, mv_ord: &Order) -> (r: bool)
    ensures
        r == is_convoy_for_spec(convoy@, mv_ord@),
{
    match &convoy.command {
        MainCommand::Convoy(cm) => cm.carries(mv_ord),
        _ => false,
    }
}

/// For each convoy, whether the path has not used it.
pub open spec fn free_mask(convoys: Seq<usize>, path: Seq<usize>) -> Seq<bool> {
    Seq::new(convoys.len(), |k: int| !path.contains(convoys[k]))
}

/// The number of convoys that the path has not used.
pub open spec fn free(convoys: Seq<usize>, path: Seq<usize>) -> nat {
    count_true(free_mask(convoys, path))
}

/// A path that uses one more convoy leaves fewer unused.
pub proof fn lemma_free_less(convoys: Seq<usize>, path: Seq<usize>, k: int)
    requires
        0 <= k < convoys.len(),
        !path.contains(convoys[k]),
    ensures
        free(convoys, path.push(convoys[k])) < free(convoys, path),
{
    let longer = path.push(convoys[k]);
    let a = free_mask(convoys, path);
    let b = free_mask(convoys, longer);
    assert(longer[path.len() as int] == convoys[k]);
    assert(a[k] && !b[k]);
    assert forall|j: int| 0 <= j < a.len() && !a[j] implies !b[j] by {
        let w = choose|w: int| 0 <= w < path.len() && path[w] == convoys[j];
        assert(longer[w] == convoys[j]);
    }
    lemma_count_true_mono(a, b);
}

/// The routes that go on from `origin` by one of the first `k` convoys.
pub open spec fn route_extensions(
    map: WorldMapView,
    orders: Seq<OrderView>,
    convoys: Seq<usize>,
    origin: Seq<u8>,
    dest: Seq<u8>,
    path: Seq<usize>,
    k: int,
) -> Seq<Seq<usize>>
    decreases free(convoys, path), k,
{
    if k <= 0 || k > convoys.len() {
        Seq::empty()
    } else {
        let prev = route_extensions(map, orders, convoys, origin, dest, path, k - 1);
        let c = convoys[k - 1];
        if !path.contains(c) && map.province_adjacent_to(origin, orders[c as int].region) {
            proof {
                lemma_free_less(convoys, path, k - 1);
            }
            prev + route_steps_spec(
                map,
                orders,
                convoys,
                orders[c as int].region.province,
                dest,
                path.push(c),
            )
        } else {
            prev
        }
    }
}

/// All routes from `origin` to `dest` that begin with `path` and go on over
/// the given convoys, none of them used twice. With a convoy under way and
/// `dest` one border away, `path` itself is the one route; else the routes
/// are those over each next convoy whose fleet borders on `origin`, in turn.
pub open spec fn route_steps_spec(
    map: WorldMapView,
    orders: Seq<OrderView>,
    convoys: Seq<usize>,
    origin: Seq<u8>,
    dest: Seq<u8>,
    path: Seq<usize>,
) -> Seq<Seq<usize>>
    decreases free(convoys, path), convoys.len() + 1,
{
    if path.len() > 0 && map.provinces_adjacent(origin, dest) {
        seq![path]
    } else {
        route_extensions(map, orders, convoys, origin, dest, path, convoys.len() as int)
    }
}

/// Whether the chain of convoys carries on from `origin`, after the convoys
/// of `path`, to a province that borders on `dest`: each convoy of the
/// chain is one of the given convoys that was not used before, and its
/// fleet borders on the province that the convoy before it reached.
pub open spec fn is_route(
    map: WorldMapView,
    orders: Seq<OrderView>,
    convoys: Seq<usize>,
    origin: Seq<u8>,
    dest: Seq<u8>,
    path: Seq<usize>,
    chain: Seq<usize>,
) -> bool
    decreases chain.len(),
{
    if path.len() > 0 && map.provinces_adjacent(origin, dest) {
        true
    } else if chain.len() == 0 {
        false
    } else {
        let c = chain[0];
        convoys.contains(c) && !path.contains(c) && map.province_adjacent_to(
            origin,
            orders[c as int].region,
        ) && is_route(
            map,
            orders,
            convoys,
            orders[c as int].region.province,
            dest,
            path.push(c),
            chain.skip(1),
        )
    }
}

/// The routes by the first `k` convoys are among those by the first `m`.
proof fn lemma_extensions_grow(
    map: WorldMapView,
    orders: Seq<OrderView>,
    convoys: Seq<usize>,
    origin: Seq<u8>,
    dest: Seq<u8>,
    path: Seq<usize>,
    k: int,
    m: int,
)
    requires
        0 <= k <= m <= convoys.len(),
    ensures
        route_extensions(map, orders, convoys, origin, dest, path, k).len() <= route_extensions(
            map,
            orders,
            convoys,
            origin,
            dest,
            path,
            m,
        ).len(),
    decreases m - k,
{
    if k < m {
        lemma_extensions_grow(map, orders, convoys, origin, dest, path, k, m - 1);
    }
}

/// Where a chain of convoys carries on to the destination, a route is
/// found.
proof fn lemma_chain_is_found(
    map: WorldMapView,
    orders: Seq<OrderView>,
    convoys: Seq<usize>,
    origin: Seq<u8>,
    dest: Seq<u8>,
    path: Seq<usize>,
    chain: Seq<usize>,
)
    requires
        is_route(map, orders, convoys, origin, dest, path, chain),
    ensures
        route_steps_spec(map, orders, convoys, origin, dest, path).len() > 0,
    decreases chain.len(),
{
    if path.len() > 0 && map.provinces_adjacent(origin, dest) {
    } else {
        let c = chain[0];
        let k = choose|k: int| 0 <= k < convoys.len() && convoys[k] == c;
        lemma_chain_is_found(
            map,
            orders,
            convoys,
            orders[c as int].region.province,
            dest,
            path.push(c),
            chain.skip(1),
        );
        lemma_extensions_grow(map, orders, convoys, origin, dest, path, k + 1, convoys.len() as int);
    }
}

/// Where routes go on by one of the first `k` convoys, a chain of convoys
/// carries on to the destination.
proof fn lemma_extension_has_chain(
    map: WorldMapView,
    orders: Seq<OrderView>,
    convoys: Seq<usize>,
    origin: Seq<u8>,
    dest: Seq<u8>,
    path: Seq<usize>,
    k: int,
) -> (chain: Seq<usize>)
    requires
        0 <= k <= convoys.len(),
        !(path.len() > 0 && map.provinces_adjacent(origin, dest)),
        route_extensions(map, orders, convoys, origin, dest, path, k).len() > 0,
    ensures
        is_route(map, orders, convoys, origin, dest, path, chain),
    decreases free(convoys, path), k,
{
    let prev = route_extensions(map, orders, convoys, origin, dest, path, k - 1);
    let c = convoys[k - 1];
    if prev.len() > 0 {
        lemma_extension_has_chain(map, orders, convoys, origin, dest, path, k - 1)
    } else {
        lemma_free_less(convoys, path, k - 1);
        let rest = lemma_found_has_chain(
            map,
            orders,
            convoys,
            orders[c as int].region.province,
            dest,
            path.push(c),
        );
        let chain = seq![c] + rest;
        assert(chain.skip(1) =~= rest);
        chain
    }
}

/// Where a route is found, a chain of convoys carries on to the
/// destination.
proof fn lemma_found_has_chain(
    map: WorldMapView,
    orders: Seq<OrderView>,
    convoys: Seq<usize>,
    origin: Seq<u8>,
    dest: Seq<u8>,
    path: Seq<usize>,
) -> (chain: Seq<usize>)
    requires
        route_steps_spec(map, orders, convoys, origin, dest, path).len() > 0,
    ensures
        is_route(map, orders, convoys, origin, dest, path, chain),
    decreases free(convoys, path), convoys.len() + 1,
{
    if path.len() > 0 && map.provinces_adjacent(origin, dest) {
        Seq::empty()
    } else {
        lemma_extension_has_chain(map, orders, convoys, origin, dest, path, convoys.len() as int)
    }
}

/// A route is found exactly where some chain of the given convoys, each
/// used once, leads from `origin` to a province that borders on `dest`.
pub proof fn routes_exist_for_chains(
    map: WorldMapView,
    orders: Seq<OrderView>,
    convoys: Seq<usize>,
    origin: Seq<u8>,
    dest: Seq<u8>,
    path: Seq<usize>,
)
    ensures
        route_steps_spec(map, orders, convoys, origin, dest, path).len() > 0 <==> exists|
            chain: Seq<usize>,
        | #[trigger] is_route(map, orders, convoys, origin, dest, path, chain),
{
    if route_steps_spec(map, orders, convoys, origin, dest, path).len() > 0 {
        let chain = lemma_found_has_chain(map, orders, convoys, origin, dest, path);
    }
    if exists|chain: Seq<usize>| #[trigger] is_route(map, orders, convoys, origin, dest, path, chain) {
        let chain = choose|chain: Seq<usize>| #[trigger]
            is_route(map, orders, convoys, origin, dest, path, chain);
        lemma_chain_is_found(map, orders, convoys, origin, dest, path, chain);
    }
}

/// The views of a vector of routes.
pub open spec fn routes_view(routes: Seq<Vec<usize>>) -> Seq<Seq<usize>> {
    Seq::new(routes.len(), |i: int| routes[i]@)
}

/// A copy of a list of places.
pub fn clone_indices(v: &Vec<usize>) -> (r: Vec<usize>)
    ensures
        r@ == v@,
{
    let mut out: Vec<usize> = Vec::new();
    let mut i: usize = 0;
    while i < v.len()
        invariant
            i <= v.len(),
            out@.len() == i,
            forall|k: int| 0 <= k < i ==> out@[k] == v@[k],
        decreases v.len() - i,
    {
        out.push(v[i]);
        i += 1;
    }
    out
}

/// Whether the place is in the list.
pub fn has_index(v: &Vec<usize>, x: usize) -> (r: bool)
    ensures
        r == v@.contains(x),
{
    let mut i: usize = 0;
    while i < v.len()
        invariant
            i <= v.len(),
            forall|k: int| 0 <= k < i ==> v@[k] != x,
        decreases v.len() - i,
    {
        if v[i] == x {
            return true;
        }
        i += 1;
    }
    false
}

/// Find all routes from `origin` to `dest` given a set of valid convoys.
/// `convoys` holds the places of the convoy orders among `orders`, and
/// `working_path` the convoys that the route has used so far.
pub fn route_steps(
    map: &WorldMap,
    orders: &Vec<Order>,
    convoys: &Vec<usize>,
    origin: &ProvinceKey,
    dest: &ProvinceKey,
    working_path: Vec<usize>,
) -> (r: Vec<Vec<usize>>)
    requires
        forall|k: int| 0 <= k < convoys@.len() ==> (#[trigger] convoys@[k]) < orders@.len(),
    ensures
        routes_view(r@) == route_steps_spec(
            map@,
            orders_view(orders@),
            convoys@,
            origin@,
            dest@,
            working_path@,
        ),
    decreases free(convoys@, working_path@), convoys@.len() + 1,
{
    if working_path.len() > 0 && map.provinces_adjacent(origin, dest) {
        let mut out: Vec<Vec<usize>> = Vec::new();
        out.push(working_path);
        return out;
    }
    let mut paths: Vec<Vec<usize>> = Vec::new();
    let ghost ov = orders_view(orders@);
    let mut k: usize = 0;
    while k < convoys.len()
        invariant
            k <= convoys.len(),
            ov == orders_view(orders@),
            forall|j: int| 0 <= j < convoys@.len() ==> (#[trigger] convoys@[j]) < orders@.len(),
            routes_view(paths@) == route_extensions(
                map@,
                ov,
                convoys@,
                origin@,
                dest@,
                working_path@,
                k as int,
            ),
        decreases convoys.len() - k,
    {
        let c: usize = convoys[k];
        if !has_index(&working_path, c) && map.province_adjacent_to(origin, &orders[c].region) {
            let mut next_path = clone_indices(&working_path);
            next_path.push(c);
            proof {
                lemma_free_less(convoys@, working_path@, k as int);
            }
            let mut steps = route_steps(
                map,
                orders,
                convoys,
                orders[c].region.province(),
                dest,
                next_path,
            );
            paths.append(&mut steps);
        }
        k += 1;
    }
    paths
}

/// Whether the order at `k` is a convoy of the move at `i` that succeeds.
pub open spec fn convoy_step(cx: ContextView, seen: Seen, i: int, k: int) -> Step<bool> {
    if is_convoy_for_spec(cx.orders[k], cx.orders[i]) {
        verdict_step(seen, k)
    } else {
        Step::Done(false)
    }
}

/// For each order, whether it is a convoy of the move at `i` that succeeds.
pub open spec fn convoy_steps(cx: ContextView, seen: Seen, i: int) -> Seq<Step<bool>> {
    Seq::new(cx.orders.len(), |k: int| convoy_step(cx, seen, i, k))
}

/// The routes by which the move at `i` can be convoyed: an error for a
/// fleet and for an order that is no move; else the routes over the
/// convoys of the move that succeed.
pub open spec fn routes_spec(cx: ContextView, seen: Seen, i: int) -> Step<
    Result<Seq<Seq<usize>>, ConvoyRouteError>,
> {
    let order = cx.orders[i];
    if order.unit_type == UnitType::Fleet {
        Step::Done(Err(ConvoyRouteError::CanOnlyConvoyArmy))
    } else {
        match order.move_dest() {
            None => Step::Done(Err(ConvoyRouteError::CanOnlyConvoyMove)),
            Some(dst) => match all_hits(convoy_steps(cx, seen, i)) {
                Step::Need(j) => Step::Need(j),
                Step::Done(convoys) => Step::Done(
                    Ok(
                        route_steps_spec(
                            cx.map,
                            cx.orders,
                            convoys,
                            order.region.province,
                            dst.province,
                            Seq::empty(),
                        ),
                    ),
                ),
            },
        }
    }
}

/// Whether the move at `i` has a convoy route.
pub open spec fn route_exists_spec(cx: ContextView, seen: Seen, i: int) -> Step<bool> {
    match routes_spec(cx, seen, i) {
        Step::Need(j) => Step::Need(j),
        Step::Done(Ok(r)) => Step::Done(r.len() > 0),
        Step::Done(Err(_)) => Step::Done(false),
    }
}

/// What `routes` answers, against what `routes_spec` says.
pub open spec fn routes_match(
    r: Step<Result<Vec<Vec<usize>>, ConvoyRouteError>>,
    s: Step<Result<Seq<Seq<usize>>, ConvoyRouteError>>,
) -> bool {
    match r {
        Step::Need(j) => s == Step::<Result<Seq<Seq<usize>>, ConvoyRouteError>>::Need(j),
        Step::Done(Err(e)) => s == Step::<Result<Seq<Seq<usize>>, ConvoyRouteError>>::Done(
            Err(e),
        ),
        Step::Done(Ok(v)) => s == Step::<Result<Seq<Seq<usize>>, ConvoyRouteError>>::Done(
            Ok(routes_view(v@)),
        ),
    }
}

/// The convoys of the move at `i` that succeed.
pub fn successful_convoys(ctx: &ResolverContext<'_>, seen: &Vec<Option<bool>>, i: usize) -> (r:
    Step<Vec<usize>>)
    requires
        i < ctx@.orders.len(),
        seen@.len() == ctx@.orders.len(),
    ensures
        r matches Step::Need(j) ==> all_hits(convoy_steps(ctx@, seen@, i as int)) == Step::<
            Seq<usize>,
        >::Need(j),
        r matches Step::Done(v) ==> all_hits(convoy_steps(ctx@, seen@, i as int)) == Step::Done(
            v@,
        ) && forall|k: int| 0 <= k < v@.len() ==> (#[trigger] v@[k]) < ctx@.orders.len(),
        asks_unseen(seen@, r),
{
    let ghost steps = convoy_steps(ctx@, seen@, i as int);
    let n: usize = ctx.len();
    let mut hits: Vec<usize> = Vec::new();
    let mut k: usize = 0;
    while k < n
        invariant
            k <= n,
            n == ctx@.orders.len(),
            i < n,
            seen@.len() == n,
            steps == convoy_steps(ctx@, seen@, i as int),
            all_hits_upto(steps, k as int) == Step::Done(hits@),
            forall|w: int| 0 <= w < hits@.len() ==> (#[trigger] hits@[w]) < n,
        decreases n - k,
    {
        let step = if is_convoy_for(ctx.order(k), ctx.order(i)) {
            verdict_of(seen, k)
        } else {
            Step::Done(false)
        };
        match step {
            Step::Need(j) => {
                proof {
                    lemma_all_hits_need(steps, k as int + 1, n as int);
                }
                return Step::Need(j);
            },
            Step::Done(b) => {
                if b {
                    hits.push(k);
                }
            },
        }
        k += 1;
    }
    Step::Done(hits)
}

/// Finds all valid convoy routes for a given move order.
pub fn routes(ctx: &ResolverContext<'_>, seen: &Vec<Option<bool>>, i: usize) -> (r: Step<
    Result<Vec<Vec<usize>>, ConvoyRouteError>,
>)
    requires
        i < ctx@.orders.len(),
        seen@.len() == ctx@.orders.len(),
    ensures
        routes_match(r, routes_spec(ctx@, seen@, i as int)),
        asks_unseen(seen@, r),
{
    let mv_ord = ctx.order(i);
    if mv_ord.unit_type == UnitType::Fleet {
        return Step::Done(Err(ConvoyRouteError::CanOnlyConvoyArmy));
    }
    match mv_ord.move_dest() {
        None => Step::Done(Err(ConvoyRouteError::CanOnlyConvoyMove)),
        Some(dst) => {
            match successful_convoys(ctx, seen, i) {
                Step::Need(j) => Step::Need(j),
                Step::Done(convoys) => {
                    let found = route_steps(
                        ctx.world_map(),
                        ctx.orders(),
                        &convoys,
                        mv_ord.region.province(),
                        dst.province(),
                        Vec::new(),
                    );
                    Step::Done(Ok(found))
                },
            }
        },
    }
}

/// Determines if any valid convoy route exists for the given move order.
pub fn route_exists(ctx: &ResolverContext<'_>, seen: &Vec<Option<bool>>, i: usize) -> (r: Step<
    bool,
>)
    requires
        i < ctx@.orders.len(),
        seen@.len() == ctx@.orders.len(),
    ensures
        r == route_exists_spec(ctx@, seen@, i as int),
        asks_unseen(seen@, r),
{
    match routes(ctx, seen, i) {
        Step::Need(j) => Step::Need(j),
        Step::Done(Ok(found)) => Step::Done(found.len() > 0),
        Step::Done(Err(_)) => Step::Done(false),
    }
}

} // verus!

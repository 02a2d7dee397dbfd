//! Civil disorder: which units leave the board when a nation has more
//! units than it can keep and does not say which are to go.
use vstd::prelude::*;
use crate::geo::key::{ProvinceKey, region_text};
use crate::geo::map::WorldMapView;
use crate::judge::build::state::{AdjustmentView, ResolverState, StateView};
use crate::nation::Nation;
use crate::order::BuildCommand;
use crate::seqs::lemma_first_true;
use crate::text::{bytes_less, lex_less};
use crate::unit::{distinct_provinces, positions_view, UnitPosition, UnitPositionView, UnitType};
use crate::variant::standard::{JudgeView, StandardBuildJudge};

verus! {

impl JudgeView {
    /// Whether the province lies within `k` borders of a home supply center
    /// of the nation. Borders of every terrain count.
    pub open spec fn within(self, nation: Seq<u8>, p: Seq<u8>, k: nat) -> bool
        decreases k,
    {
        if k == 0 {
            self.is_home(nation, p)
        } else {
            self.within(nation, p, (k - 1) as nat) || exists|t: int|
                0 <= t < self.map.borders.len() && (#[trigger] self.map.borders[t]).touches(p)
                    && self.within(nation, self.map.borders[t].far_side(p).province, (k - 1) as nat)
        }
    }

    /// Whether the border at `t` joins the province to one that lies within
    /// `k` borders of a home supply center of the nation.
    pub open spec fn leads_home(self, nation: Seq<u8>, p: Seq<u8>, k: nat, t: int) -> bool {
        self.map.borders[t].touches(p) && self.within(
            nation,
            self.map.borders[t].far_side(p).province,
            k,
        )
    }

    /// The least number from `k` on, below the number of provinces, of
    /// borders within which the province lies of a home supply center; the
    /// number of provinces where there is none.
    pub open spec fn distance_from(self, nation: Seq<u8>, p: Seq<u8>, k: nat) -> nat
        decreases self.map.provinces.len() - k,
    {
        if k >= self.map.provinces.len() {
            self.map.provinces.len()
        } else if self.within(nation, p, k) {
            k
        } else {
            self.distance_from(nation, p, k + 1)
        }
    }

    /// How far the province is from the nearest home supply center of the
    /// nation, counted in borders; the number of provinces where none can be
    /// reached.
    pub open spec fn distance(self, nation: Seq<u8>, p: Seq<u8>) -> nat {
        self.distance_from(nation, p, 0)
    }

    /// Whether unit `a` is disbanded before unit `b`: the unit farther from
    /// home goes first; at equal distance a fleet goes before an army; of
    /// two units of one type the one whose region comes first in the
    /// alphabet.
    pub open spec fn goes_first(self, nation: Seq<u8>, a: UnitPositionView, b: UnitPositionView)
        -> bool {
        let da = self.distance(nation, a.region.province);
        let db = self.distance(nation, b.region.province);
        da > db || (da == db && ((a.unit_type == UnitType::Fleet && b.unit_type == UnitType::Army)
            || (a.unit_type == b.unit_type && lex_less(
            region_text(a.region),
            region_text(b.region),
        ))))
    }

    /// The place, among the first `k` units, of the unit of the nation that
    /// is disbanded first.
    pub open spec fn pick_upto(self, nation: Seq<u8>, live: Seq<UnitPositionView>, k: int)
        -> Option<int>
        decreases k,
    {
        if k <= 0 {
            None
        } else {
            let prev = self.pick_upto(nation, live, k - 1);
            if live[k - 1].nation != nation {
                prev
            } else {
                match prev {
                    None => Some(k - 1),
                    Some(b) => if self.goes_first(nation, live[k - 1], live[b]) {
                        Some(k - 1)
                    } else {
                        Some(b)
                    },
                }
            }
        }
    }

    /// The units after `count` units of the nation were disbanded, or all
    /// of them where it has fewer.
    pub open spec fn disband_excess(
        self,
        nation: Seq<u8>,
        live: Seq<UnitPositionView>,
        count: nat,
    ) -> Seq<UnitPositionView>
        decreases count,
    {
        if count == 0 {
            live
        } else {
            match self.pick_upto(nation, live, live.len() as int) {
                None => live,
                Some(i) => self.disband_excess(nation, live.remove(i), (count - 1) as nat),
            }
        }
    }

    /// The units after the first `k` nations were brought down to what they
    /// can keep: a nation that had to disband and did not order enough
    /// disbands loses the units that are disbanded first.
    pub open spec fn after_disorder_upto(
        self,
        data: Seq<AdjustmentView>,
        live: Seq<UnitPositionView>,
        k: int,
    ) -> Seq<UnitPositionView>
        decreases k,
    {
        if k <= 0 {
            live
        } else {
            let prev = self.after_disorder_upto(data, live, k - 1);
            if data[k - 1].command == BuildCommand::Disband && data[k - 1].remaining > 0 {
                self.disband_excess(data[k - 1].nation, prev, data[k - 1].remaining)
            } else {
                prev
            }
        }
    }

    /// The units after every nation was brought down to what it can keep.
    pub open spec fn after_disorder(self, st: StateView) -> Seq<UnitPositionView> {
        self.after_disorder_upto(st.data, st.live, st.data.len() as int)
    }
}

/// The place that `pick_upto` gives is the place of a unit.
pub proof fn lemma_pick_upto(
    judge: JudgeView,
    nation: Seq<u8>,
    live: Seq<UnitPositionView>,
    k: int,
)
    requires
        0 <= k <= live.len(),
    ensures
        judge.pick_upto(nation, live, k) is Some ==> 0 <= judge.pick_upto(nation, live, k)->0 < k
            && live[judge.pick_upto(nation, live, k)->0].nation == nation,
    decreases k,
{
    if k > 0 {
        lemma_pick_upto(judge, nation, live, k - 1);
    }
}

/// Disbanding in civil disorder leaves the units in distinct provinces.
pub proof fn lemma_disband_excess_distinct(
    judge: JudgeView,
    nation: Seq<u8>,
    live: Seq<UnitPositionView>,
    count: nat,
)
    requires
        distinct_provinces(live),
    ensures
        distinct_provinces(judge.disband_excess(nation, live, count)),
    decreases count,
{
    if count > 0 {
        lemma_pick_upto(judge, nation, live, live.len() as int);
        match judge.pick_upto(nation, live, live.len() as int) {
            None => {},
            Some(i) => {
                lemma_disband_excess_distinct(judge, nation, live.remove(i), (count - 1) as nat);
            },
        }
    }
}

/// Civil disorder leaves the units in distinct provinces.
pub proof fn lemma_after_disorder_distinct(
    judge: JudgeView,
    data: Seq<AdjustmentView>,
    live: Seq<UnitPositionView>,
    k: int,
)
    requires
        distinct_provinces(live),
    ensures
        distinct_provinces(judge.after_disorder_upto(data, live, k)),
    decreases k,
{
    if k > 0 {
        lemma_after_disorder_distinct(judge, data, live, k - 1);
        lemma_disband_excess_distinct(
            judge,
            data[k - 1].nation,
            judge.after_disorder_upto(data, live, k - 1),
            data[k - 1].remaining,
        );
    }
}

/// With no level below `k` reached from `j` on and level `k` reached, the
/// distance counted from `j` is `k`.
proof fn lemma_distance_found(judge: JudgeView, nation: Seq<u8>, p: Seq<u8>, j: nat, k: nat)
    requires
        j <= k < judge.map.provinces.len(),
        forall|w: nat| j <= w < k ==> !judge.within(nation, p, w),
        judge.within(nation, p, k),
    ensures
        judge.distance_from(nation, p, j) == k,
    decreases k - j,
{
    if j < k {
        lemma_distance_found(judge, nation, p, j + 1, k);
    }
}

/// With no level reached from `j` on, the distance counted from `j` is the
/// number of provinces.
proof fn lemma_distance_none(judge: JudgeView, nation: Seq<u8>, p: Seq<u8>, j: nat)
    requires
        forall|w: nat| j <= w < judge.map.provinces.len() ==> !judge.within(nation, p, w),
    ensures
        judge.distance_from(nation, p, j) == judge.map.provinces.len(),
    decreases judge.map.provinces.len() - j,
{
    if j < judge.map.provinces.len() {
        lemma_distance_none(judge, nation, p, j + 1);
    }
}

/// Both ends of a border lie in provinces of the board.
proof fn lemma_border_provinces(map: WorldMapView, t: int)
    requires
        map.wf(),
        0 <= t < map.borders.len(),
    ensures
        map.has_province(map.borders[t].a.province),
        map.has_province(map.borders[t].b.province),
{
    let a = map.borders[t].a;
    let b = map.borders[t].b;
    lemma_first_true(map.region_mask(a), 0);
    lemma_first_true(map.region_mask(b), 0);
}

/// A province that the board lacks is within reach of home only where it
/// is a home supply center itself.
proof fn lemma_unknown_province(judge: JudgeView, nation: Seq<u8>, p: Seq<u8>, k: nat)
    requires
        judge.map.wf(),
        !judge.map.has_province(p),
    ensures
        judge.within(nation, p, k) == judge.is_home(nation, p),
    decreases k,
{
    if k > 0 {
        lemma_unknown_province(judge, nation, p, (k - 1) as nat);
        assert forall|t: int| 0 <= t < judge.map.borders.len() implies !#[trigger] judge.leads_home(
            nation,
            p,
            (k - 1) as nat,
            t,
        ) by {
            lemma_border_provinces(judge.map, t);
        }
        if judge.within(nation, p, k) && !judge.within(nation, p, (k - 1) as nat) {
            let t = choose|t: int|
                0 <= t < judge.map.borders.len() && (#[trigger] judge.map.borders[t]).touches(p)
                    && judge.within(nation, judge.map.borders[t].far_side(p).province, (k - 1) as nat);
            assert(judge.leads_home(nation, p, (k - 1) as nat, t));
        }
    }
}

impl<'a> StandardBuildJudge<'a> {
    /// For each province of the board, whether it lies within one border
    /// more of home than `level` says.
    fn next_level(&self, nation: &Nation, level: &Vec<bool>, Ghost(k): Ghost<nat>) -> (r: Vec<bool>)
        requires
            self@.map.wf(),
            level@.len() == self@.map.provinces.len(),
            forall|i: int|
                0 <= i < level@.len() ==> level@[i] == self@.within(
                    nation@,
                    #[trigger] self@.map.provinces[i].name,
                    k,
                ),
        ensures
            r@.len() == self@.map.provinces.len(),
            forall|i: int|
                0 <= i < r@.len() ==> r@[i] == self@.within(
                    nation@,
                    #[trigger] self@.map.provinces[i].name,
                    k + 1,
                ),
    {
        let ghost judge = self@;
        let ghost map = self@.map;
        let map_ref = self.map_ref();
        let borders = map_ref.borders();
        let mut next: Vec<bool> = Vec::new();
        let mut c: usize = 0;
        while c < level.len()
            invariant
                c <= level.len(),
                next@.len() == c,
                forall|i: int| 0 <= i < c ==> next@[i] == level@[i],
            decreases level.len() - c,
        {
            next.push(level[c]);
            c += 1;
        }
        let mut t: usize = 0;
        while t < borders.len()
            invariant
                t <= borders.len(),
                judge == self@,
                map == judge.map,
                map.wf(),
                map_ref@ == map,
                borders@.len() == map.borders.len(),
                forall|i: int| 0 <= i < borders@.len() ==> (#[trigger] borders@[i])@
                    == map.borders[i],
                level@.len() == map.provinces.len(),
                next@.len() == level@.len(),
                forall|i: int|
                    0 <= i < level@.len() ==> level@[i] == judge.within(
                        nation@,
                        #[trigger] map.provinces[i].name,
                        k,
                    ),
                forall|i: int|
                    0 <= i < next@.len() ==> next@[i] == (level@[i] || exists|w: int|
                        0 <= w < t && #[trigger] judge.leads_home(
                            nation@,
                            map.provinces[i].name,
                            k,
                            w,
                        )),
            decreases borders.len() - t,
        {
            let border = &borders[t];
            proof {
                lemma_border_provinces(map, t as int);
            }
            let ia: usize = match map_ref.province_index(border.a.province()) {
                Some(i) => i,
                None => {
                    proof {
                        assert(false);
                    }
                    0
                },
            };
            let ib: usize = match map_ref.province_index(border.b.province()) {
                Some(i) => i,
                None => {
                    proof {
                        assert(false);
                    }
                    0
                },
            };
            if level[ia] {
                next[ib] = true;
            }
            if level[ib] {
                next[ia] = true;
            }
            proof {
                assert forall|i: int| 0 <= i < next@.len() implies next@[i] == (level@[i]
                    || exists|w: int|
                    0 <= w < t + 1 && #[trigger] judge.leads_home(
                        nation@,
                        map.provinces[i].name,
                        k,
                        w,
                    )) by {
                    let p = map.provinces[i].name;
                    let here = judge.leads_home(nation@, p, k, t as int);
                    if i == ia as int {
                    } else if i == ib as int {
                    }
                    if next@[i] && !level@[i] {
                        if !here {
                            let w = choose|w: int|
                                0 <= w < t && #[trigger] judge.leads_home(nation@, p, k, w);
                        }
                    }
                    if exists|w: int|
                        0 <= w < t + 1 && #[trigger] judge.leads_home(nation@, p, k, w) {
                        let w = choose|w: int|
                            0 <= w < t + 1 && #[trigger] judge.leads_home(nation@, p, k, w);
                    }
                }
            }
            t += 1;
        }
        proof {
            assert forall|i: int| 0 <= i < next@.len() implies next@[i] == judge.within(
                nation@,
                #[trigger] map.provinces[i].name,
                k + 1,
            ) by {
                let p = map.provinces[i].name;
                if judge.within(nation@, p, k + 1) && !judge.within(nation@, p, k) {
                    let w = choose|w: int|
                        0 <= w < map.borders.len() && (#[trigger] map.borders[w]).touches(p)
                            && judge.within(nation@, map.borders[w].far_side(p).province, k);
                    assert(judge.leads_home(nation@, p, k, w));
                }
                if next@[i] && !level@[i] {
                    let w = choose|w: int|
                        0 <= w < t && #[trigger] judge.leads_home(nation@, p, k, w);
                }
            }
        }
        next
    }

    /// How far the province is from the nearest home supply center of the
    /// nation, counted in borders; the number of provinces where none can be
    /// reached.
    pub fn distance_from_home(&self, nation: &Nation, province: &ProvinceKey) -> (d: usize)
        requires
            self@.map.wf(),
        ensures
            d == self@.distance(nation@, province@),
    {
        let ghost judge = self@;
        let map_ref = self.map_ref();
        let provinces = map_ref.provinces();
        let n: usize = provinces.len();
        let idx: usize = match map_ref.province_index(province) {
            Some(i) => i,
            None => {
                let home = self.is_home(nation, province);
                proof {
                    assert forall|w: nat| 0 <= w < judge.map.provinces.len() implies judge.within(
                        nation@,
                        province@,
                        w,
                    ) == home by {
                        lemma_unknown_province(judge, nation@, province@, w);
                    }
                    if home && n > 0 {
                    } else {
                        if n > 0 {
                            lemma_distance_none(judge, nation@, province@, 0);
                        }
                    }
                }
                return if home && n > 0 {
                    0
                } else {
                    n
                };
            },
        };
        let mut level: Vec<bool> = Vec::new();
        let mut c: usize = 0;
        while c < n
            invariant
                c <= n,
                n == provinces@.len(),
                judge == self@,
                provinces@.len() == judge.map.provinces.len(),
                forall|i: int| 0 <= i < provinces@.len() ==> (#[trigger] provinces@[i])@
                    == judge.map.provinces[i],
                level@.len() == c,
                forall|i: int|
                    0 <= i < c ==> level@[i] == judge.within(
                        nation@,
                        #[trigger] judge.map.provinces[i].name,
                        0,
                    ),
            decreases n - c,
        {
            level.push(self.is_home(nation, &provinces[c].short_name));
            c += 1;
        }
        let mut k: usize = 0;
        while k < n
            invariant
                k <= n,
                idx < n,
                judge == self@,
                judge.map.wf(),
                n == judge.map.provinces.len(),
                judge.map.provinces[idx as int].name == province@,
                level@.len() == n,
                forall|i: int|
                    0 <= i < level@.len() ==> level@[i] == judge.within(
                        nation@,
                        #[trigger] judge.map.provinces[i].name,
                        k as nat,
                    ),
                forall|w: nat| 0 <= w < k ==> !judge.within(nation@, province@, w),
            decreases n - k,
        {
            if level[idx] {
                proof {
                    lemma_distance_found(judge, nation@, province@, 0, k as nat);
                }
                return k;
            }
            level = self.next_level(nation, &level, Ghost(k as nat));
            k += 1;
        }
        proof {
            lemma_distance_none(judge, nation@, province@, 0);
        }
        n
    }

    /// Whether unit `a` is disbanded before unit `b`.
    pub fn goes_first(&self, nation: &Nation, a: &UnitPosition, b: &UnitPosition) -> (r: bool)
        requires
            self@.map.wf(),
        ensures
            r == self@.goes_first(nation@, a@, b@),
    {
        let da: usize = self.distance_from_home(nation, a.province());
        let db: usize = self.distance_from_home(nation, b.province());
        if da > db {
            true
        } else if da < db {
            false
        } else if a.unit.unit_type == UnitType::Fleet && b.unit.unit_type == UnitType::Army {
            true
        } else if a.unit.unit_type == b.unit.unit_type {
            bytes_less(&a.region.text(), &b.region.text())
        } else {
            false
        }
    }

    /// The place of the unit of the nation that is disbanded first.
    pub fn pick(&self, nation: &Nation, live: &Vec<UnitPosition>) -> (r: Option<usize>)
        requires
            self@.map.wf(),
        ensures
            r is Some == self@.pick_upto(nation@, positions_view(live@), live@.len() as int)
                is Some,
            r is Some ==> r->0 == self@.pick_upto(
                nation@,
                positions_view(live@),
                live@.len() as int,
            )->0 && r->0 < live@.len(),
    {
        let ghost lv = positions_view(live@);
        let mut best: Option<usize> = None;
        let mut i: usize = 0;
        while i < live.len()
            invariant
                i <= live.len(),
                self@.map.wf(),
                lv == positions_view(live@),
                best is Some == self@.pick_upto(nation@, lv, i as int) is Some,
                best is Some ==> best->0 == self@.pick_upto(nation@, lv, i as int)->0 && best->0
                    < i,
            decreases live.len() - i,
        {
            if live[i].unit.nation.eq(nation) {
                match best {
                    None => {
                        best = Some(i);
                    },
                    Some(b) => {
                        if self.goes_first(nation, &live[i], &live[b]) {
                            best = Some(i);
                        }
                    },
                }
            }
            i += 1;
        }
        best
    }

    /// Takes off the board the units that civil disorder costs: of each
    /// nation that had to disband and did not order enough disbands, the
    /// units that are disbanded first.
    pub fn disband_in_disorder(&self, state: &mut ResolverState)
        requires
            self@.map.wf(),
        ensures
            final(state)@ == (StateView {
                live: self@.after_disorder(old(state)@),
                ..old(state)@
            }),
    {
        let ghost judge = self@;
        let ghost start = state@;
        let count: usize = state.data().len();
        let mut k: usize = 0;
        while k < count
            invariant
                k <= count,
                judge == self@,
                judge.map.wf(),
                count == start.data.len(),
                state@ == (StateView {
                    live: judge.after_disorder_upto(start.data, start.live, k as int),
                    ..start
                }),
            decreases count - k,
        {
            let data = state.data();
            let is_disband = data[k].command == BuildCommand::Disband;
            let remaining: usize = data[k].remaining;
            if is_disband && remaining > 0 {
                let nation = data[k].nation.clone();
                let ghost base = state@.live;
                let mut left: usize = remaining;
                while left > 0
                    invariant
                        judge == self@,
                        judge.map.wf(),
                        state@ == (StateView { live: state@.live, ..start }),
                        judge.disband_excess(nation@, state@.live, left as nat)
                            == judge.disband_excess(nation@, base, remaining as nat),
                    decreases left,
                {
                    match self.pick(&nation, state.live_units()) {
                        Some(i) => {
                            state.remove_unit_at(i);
                            left -= 1;
                        },
                        None => {
                            left = 0;
                        },
                    }
                }
            }
            k += 1;
        }
    }
}

} // verus!

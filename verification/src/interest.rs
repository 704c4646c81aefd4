//! Interest rings: which posed loci simulate fully, far, or not at all, and
//! which places stay resident. A pure function of one view of the world.
use vstd::prelude::*;

use crate::physics::PoseMm;
use crate::units::{Sigil, Tick};

verus! {

/// A far locus proposes on one tick in this many.
pub const LOD_PERIOD: u32 = 6;

/// Simulation level of detail.
#[derive(Copy, Clone, PartialEq, Eq, Structural, Hash, Debug)]
pub enum SimLod {
    /// Every tick.
    Full,
    /// Every `LOD_PERIOD` ticks.
    Far,
    /// Not simulated.
    Dormant,
}

/// Radii for the full and far interest rings, millimetres.
#[derive(Copy, Clone, PartialEq, Eq, Structural, Debug)]
pub struct InterestConfig {
    /// Inside this Chebyshev XZ range of an observer a locus simulates fully.
    pub full_mm: i32,
    /// Inside this range (and outside `full_mm`) a locus simulates far.
    pub far_mm: i32,
}

impl Default for InterestConfig {
    fn default() -> (r: InterestConfig)
        ensures
            r == (InterestConfig { full_mm: 20_000, far_mm: 80_000 }),
    {
        InterestConfig { full_mm: 20_000, far_mm: 80_000 }
    }
}

/// Place residency hint.
#[derive(Copy, Clone, PartialEq, Eq, Structural, Hash, Debug)]
pub enum ResidencyCommand {
    /// An observer needs this place.
    Load(Sigil),
    /// No observer is within the far ring of this place.
    Evict(Sigil),
}

/// One locus of the world view, as an interest pass reads it.
#[derive(Copy, Clone, PartialEq, Eq, Structural, Debug)]
pub struct InterestLocus {
    /// The locus.
    pub sigil: Sigil,
    /// An observer or an actor: interest is measured from it.
    pub observer: bool,
    /// A place, which gets a residency command.
    pub place: bool,
    /// Committed pose, if any.
    pub pose: Option<PoseMm>,
    /// Physics island, if the locus sits in one.
    pub island: Option<u16>,
}

/// Result of one interest pass.
#[derive(Clone, PartialEq, Eq, Debug)]
pub struct Interest {
    /// Level of detail of each posed locus, in view order.
    pub lod: Vec<(Sigil, SimLod)>,
    /// Place load / evict commands, in view order.
    pub residency: Vec<ResidencyCommand>,
}

impl Default for Interest {
    fn default() -> (r: Interest)
        ensures
            r.lod@.len() == 0,
            r.residency@.len() == 0,
    {
        Interest { lod: Vec::new(), residency: Vec::new() }
    }
}

/// Absolute gap between two coordinates.
pub open spec fn gap(a: int, b: int) -> int {
    if a >= b {
        a - b
    } else {
        b - a
    }
}

/// Chebyshev XZ distance, each axis gap taken as an `i32`.
pub open spec fn spec_cheb(a: PoseMm, b: PoseMm) -> i32 {
    let dx = gap(a.x.0 as int, b.x.0 as int) as i32;
    let dz = gap(a.z.0 as int, b.z.0 as int) as i32;
    if dx >= dz {
        dx
    } else {
        dz
    }
}

/// Distance from `p` to the nearest observer (`i32::MAX` with none).
pub open spec fn nearest(obs: Seq<PoseMm>, p: PoseMm) -> i32
    decreases obs.len(),
{
    if obs.len() == 0 {
        i32::MAX
    } else {
        let rest = nearest(obs.drop_last(), p);
        let c = spec_cheb(obs.last(), p);
        if c < rest {
            c
        } else {
            rest
        }
    }
}

/// Ring of a pose: with no observer everything is full.
pub open spec fn spec_ring(obs: Seq<PoseMm>, p: PoseMm, cfg: InterestConfig) -> SimLod {
    if obs.len() == 0 {
        SimLod::Full
    } else if nearest(obs, p) <= cfg.full_mm {
        SimLod::Full
    } else if nearest(obs, p) <= cfg.far_mm {
        SimLod::Far
    } else {
        SimLod::Dormant
    }
}

/// Poses of the posed observers, in view order.
pub open spec fn observer_poses(loci: Seq<InterestLocus>) -> Seq<PoseMm>
    decreases loci.len(),
{
    if loci.len() == 0 {
        Seq::empty()
    } else {
        let rest = observer_poses(loci.drop_last());
        let l = loci.last();
        if l.observer && l.pose is Some {
            rest.push(l.pose.unwrap())
        } else {
            rest
        }
    }
}

/// Ring of a posed locus among all the view's observers.
pub open spec fn base_lod(loci: Seq<InterestLocus>, cfg: InterestConfig, l: InterestLocus) -> SimLod {
    spec_ring(observer_poses(loci), l.pose.unwrap(), cfg)
}

/// Some posed locus of island `id` is in the full ring.
pub open spec fn island_awake(loci: Seq<InterestLocus>, cfg: InterestConfig, id: u16) -> bool {
    exists|j: int|
        0 <= j < loci.len() && (#[trigger] loci[j]).pose is Some && loci[j].island == Some(id) && base_lod(
            loci,
            cfg,
            loci[j],
        ) == SimLod::Full
}

/// Level of a posed locus: its ring, or full when its island is awake.
pub open spec fn spec_lod(loci: Seq<InterestLocus>, cfg: InterestConfig, l: InterestLocus) -> SimLod {
    if l.island matches Some(id) && island_awake(loci, cfg, id) {
        SimLod::Full
    } else {
        base_lod(loci, cfg, l)
    }
}

/// Level rows of the posed loci of `pre`, judged within the whole view.
pub open spec fn lod_rows(loci: Seq<InterestLocus>, cfg: InterestConfig, pre: Seq<InterestLocus>) -> Seq<
    (Sigil, SimLod),
>
    decreases pre.len(),
{
    if pre.len() == 0 {
        Seq::empty()
    } else {
        let rest = lod_rows(loci, cfg, pre.drop_last());
        let l = pre.last();
        if l.pose is Some {
            rest.push((l.sigil, spec_lod(loci, cfg, l)))
        } else {
            rest
        }
    }
}

/// Residency commands of the posed places of `pre`.
pub open spec fn residency_rows(loci: Seq<InterestLocus>, cfg: InterestConfig, pre: Seq<InterestLocus>) -> Seq<
    ResidencyCommand,
>
    decreases pre.len(),
{
    if pre.len() == 0 {
        Seq::empty()
    } else {
        let rest = residency_rows(loci, cfg, pre.drop_last());
        let l = pre.last();
        if l.place && l.pose is Some {
            if base_lod(loci, cfg, l) == SimLod::Dormant {
                rest.push(ResidencyCommand::Evict(l.sigil))
            } else {
                rest.push(ResidencyCommand::Load(l.sigil))
            }
        } else {
            rest
        }
    }
}

/// The level of `s` in level rows, from index `k` on.
pub open spec fn lod_from(rows: Seq<(Sigil, SimLod)>, s: Sigil, k: int) -> Option<SimLod>
    decreases rows.len() - k,
{
    if k < 0 || k >= rows.len() {
        None
    } else if rows[k].0 == s {
        Some(rows[k].1)
    } else {
        lod_from(rows, s, k + 1)
    }
}

/// Locus `j` is a posed member of island `id` within the full ring.
pub open spec fn awake_here(loci: Seq<InterestLocus>, cfg: InterestConfig, id: u16, j: int) -> bool {
    loci[j].pose is Some && loci[j].island == Some(id) && base_lod(loci, cfg, loci[j]) == SimLod::Full
}

/// Island `id` is awake through one of the first `n` loci.
pub open spec fn awake_within(loci: Seq<InterestLocus>, cfg: InterestConfig, id: u16, n: int) -> bool {
    exists|j: int| 0 <= j < n && #[trigger] awake_here(loci, cfg, id, j)
}

proof fn lemma_awake_step(loci: Seq<InterestLocus>, cfg: InterestConfig, n: int)
    requires
        0 <= n,
    ensures
        forall|id: u16|
            #[trigger] awake_within(loci, cfg, id, n + 1) <==> (awake_within(loci, cfg, id, n) || awake_here(
                loci,
                cfg,
                id,
                n,
            )),
{
    assert forall|id: u16|
        #[trigger] awake_within(loci, cfg, id, n + 1) <==> (awake_within(loci, cfg, id, n) || awake_here(
            loci,
            cfg,
            id,
            n,
        )) by {
        if awake_within(loci, cfg, id, n + 1) {
            let j = choose|j: int| 0 <= j < n + 1 && #[trigger] awake_here(loci, cfg, id, j);
            if j < n {
                assert(awake_within(loci, cfg, id, n));
            }
        }
        if awake_within(loci, cfg, id, n) {
            let j = choose|j: int| 0 <= j < n && #[trigger] awake_here(loci, cfg, id, j);
            assert(0 <= j < n + 1);
        }
    }
}

fn axis_gap(a: i32, b: i32) -> (r: i32)
    ensures
        r == gap(a as int, b as int) as i32,
{
    let d: i64 = (a as i64) - (b as i64);
    let g: u32 = if d < 0 {
        (-d) as u32
    } else {
        d as u32
    };
    g as i32
}

fn cheb(a: PoseMm, b: PoseMm) -> (r: i32)
    ensures
        r == spec_cheb(a, b),
{
    let dx = axis_gap(a.x.0, b.x.0);
    let dz = axis_gap(a.z.0, b.z.0);
    if dx >= dz {
        dx
    } else {
        dz
    }
}

fn ring(observers: &Vec<PoseMm>, pose: PoseMm, cfg: &InterestConfig) -> (r: SimLod)
    ensures
        r == spec_ring(observers@, pose, *cfg),
{
    if observers.len() == 0 {
        return SimLod::Full;
    }
    let mut best: i32 = i32::MAX;
    let mut i: usize = 0;
    while i < observers.len()
        invariant
            0 <= i <= observers@.len(),
            best == nearest(observers@.take(i as int), pose),
        decreases observers@.len() - i,
    {
        assert(observers@.take(i as int + 1).drop_last() =~= observers@.take(i as int));
        let c = cheb(observers[i], pose);
        if c < best {
            best = c;
        }
        i = i + 1;
    }
    assert(observers@.take(observers@.len() as int) =~= observers@);
    if best <= cfg.full_mm {
        SimLod::Full
    } else if best <= cfg.far_mm {
        SimLod::Far
    } else {
        SimLod::Dormant
    }
}

fn has_island(ids: &Vec<u16>, id: u16) -> (r: bool)
    ensures
        r == ids@.contains(id),
{
    let mut i: usize = 0;
    while i < ids.len()
        invariant
            0 <= i <= ids@.len(),
            forall|j: int| 0 <= j < i ==> ids@[j] != id,
        decreases ids@.len() - i,
    {
        if ids[i] == id {
            return true;
        }
        i = i + 1;
    }
    false
}

fn observers_of(loci: &Vec<InterestLocus>) -> (obs: Vec<PoseMm>)
    ensures
        obs@ == observer_poses(loci@),
{
    let mut obs: Vec<PoseMm> = Vec::new();
    let mut i: usize = 0;
    while i < loci.len()
        invariant
            0 <= i <= loci@.len(),
            obs@ == observer_poses(loci@.take(i as int)),
        decreases loci@.len() - i,
    {
        assert(loci@.take(i as int + 1).drop_last() =~= loci@.take(i as int));
        let l = loci[i];
        if l.observer {
            if let Some(p) = l.pose {
                obs.push(p);
            }
        }
        i = i + 1;
    }
    assert(loci@.take(loci@.len() as int) =~= loci@);
    obs
}

/// Classify every posed locus. Island-mates of a full body are full; each
/// posed place is loaded unless no observer is within its far ring.
pub fn classify(loci: &Vec<InterestLocus>, cfg: &InterestConfig) -> (r: Interest)
    ensures
        r.lod@ == lod_rows(loci@, *cfg, loci@),
        r.residency@ == residency_rows(loci@, *cfg, loci@),
{
    let observers = observers_of(loci);
    let mut awake: Vec<u16> = Vec::new();
    let mut i: usize = 0;
    while i < loci.len()
        invariant
            0 <= i <= loci@.len(),
            observers@ == observer_poses(loci@),
            forall|id: u16| awake@.contains(id) <==> awake_within(loci@, *cfg, id, i as int),
        decreases loci@.len() - i,
    {
        proof {
            lemma_awake_step(loci@, *cfg, i as int);
        }
        let ghost before = awake@;
        let l = loci[i];
        let mut woke = false;
        if let Some(p) = l.pose {
            if let Some(id) = l.island {
                if ring(&observers, p, cfg) == SimLod::Full {
                    awake.push(id);
                    woke = true;
                }
            }
        }
        proof {
            assert forall|k: u16| awake@.contains(k) <==> awake_within(loci@, *cfg, k, i as int + 1) by {
                if woke {
                    assert(awake@ == before.push(l.island.unwrap()));
                    if awake@.contains(k) {
                        let t = choose|t: int| 0 <= t < awake@.len() && awake@[t] == k;
                        if t < before.len() {
                            assert(before[t] == k);
                        } else {
                            assert(awake_here(loci@, *cfg, k, i as int));
                        }
                    }
                    if before.contains(k) {
                        let t = choose|t: int| 0 <= t < before.len() && before[t] == k;
                        assert(awake@[t] == k);
                    }
                    if awake_here(loci@, *cfg, k, i as int) {
                        assert(awake@[before.len() as int] == k);
                    }
                } else {
                    assert(awake@ == before);
                    assert(!awake_here(loci@, *cfg, k, i as int));
                }
            }
        }
        i = i + 1;
    }
    proof {
        assert forall|id: u16| awake_within(loci@, *cfg, id, loci@.len() as int) <==> island_awake(loci@, *cfg, id) by {
            if island_awake(loci@, *cfg, id) {
                let j = choose|j: int|
                    0 <= j < loci@.len() && (#[trigger] loci@[j]).pose is Some && loci@[j].island == Some(id)
                        && base_lod(loci@, *cfg, loci@[j]) == SimLod::Full;
                assert(awake_here(loci@, *cfg, id, j));
            }
            if awake_within(loci@, *cfg, id, loci@.len() as int) {
                let j = choose|j: int| 0 <= j < loci@.len() && #[trigger] awake_here(loci@, *cfg, id, j);
                assert(loci@[j].pose is Some);
            }
        }
    }
    let mut lod: Vec<(Sigil, SimLod)> = Vec::new();
    let mut residency: Vec<ResidencyCommand> = Vec::new();
    let mut i: usize = 0;
    while i < loci.len()
        invariant
            0 <= i <= loci@.len(),
            observers@ == observer_poses(loci@),
            forall|id: u16| awake@.contains(id) <==> island_awake(loci@, *cfg, id),
            lod@ == lod_rows(loci@, *cfg, loci@.take(i as int)),
            residency@ == residency_rows(loci@, *cfg, loci@.take(i as int)),
        decreases loci@.len() - i,
    {
        assert(loci@.take(i as int + 1).drop_last() =~= loci@.take(i as int));
        let l = loci[i];
        if let Some(p) = l.pose {
            let base = ring(&observers, p, cfg);
            let level = match l.island {
                Some(id) => if has_island(&awake, id) {
                    SimLod::Full
                } else {
                    base
                },
                None => base,
            };
            lod.push((l.sigil, level));
            if l.place {
                if base == SimLod::Dormant {
                    residency.push(ResidencyCommand::Evict(l.sigil));
                } else {
                    residency.push(ResidencyCommand::Load(l.sigil));
                }
            }
        }
        i = i + 1;
    }
    assert(loci@.take(loci@.len() as int) =~= loci@);
    Interest { lod, residency }
}

impl Interest {
    /// Level of `s`, if it was classified.
    pub fn lod_of(&self, s: Sigil) -> (r: Option<SimLod>)
        ensures
            r == lod_from(self.lod@, s, 0),
    {
        let mut i: usize = 0;
        while i < self.lod.len()
            invariant
                0 <= i <= self.lod@.len(),
                lod_from(self.lod@, s, 0) == lod_from(self.lod@, s, i as int),
            decreases self.lod@.len() - i,
        {
            if self.lod[i].0 == s {
                return Some(self.lod[i].1);
            }
            i = i + 1;
        }
        None
    }
}

/// True when a locus at level `lod` skips proposing on `tick`: dormant
/// always, far except on every `LOD_PERIOD`-th tick, full never.
pub fn skip_propose(lod: SimLod, tick: Tick) -> (r: bool)
    ensures
        r == match lod {
            SimLod::Dormant => true,
            SimLod::Far => tick.0 % (LOD_PERIOD as u64) != 0,
            SimLod::Full => false,
        },
{
    match lod {
        SimLod::Dormant => true,
        SimLod::Far => tick.0 % (LOD_PERIOD as u64) != 0,
        SimLod::Full => false,
    }
}

/// Island-mates of a full body are full: when one posed member of an island
/// is within an observer's full ring, every posed member of it is full.
pub proof fn lemma_island_mates_full(loci: Seq<InterestLocus>, cfg: InterestConfig, i: int, j: int)
    requires
        0 <= i < loci.len(),
        0 <= j < loci.len(),
        loci[i].pose is Some,
        loci[j].pose is Some,
        loci[i].island is Some,
        loci[j].island == loci[i].island,
        base_lod(loci, cfg, loci[i]) == SimLod::Full,
    ensures
        spec_lod(loci, cfg, loci[j]) == SimLod::Full,
{
    assert(island_awake(loci, cfg, loci[i].island.unwrap()));
}

/// With no observer in the view, every posed locus simulates fully and every
/// posed place stays loaded.
pub proof fn lemma_no_observer_all_full(loci: Seq<InterestLocus>, cfg: InterestConfig, l: InterestLocus)
    requires
        observer_poses(loci).len() == 0,
    ensures
        spec_lod(loci, cfg, l) == SimLod::Full,
        base_lod(loci, cfg, l) != SimLod::Dormant,
{
}

/// An awake island never lowers a level: a classified locus is either at
/// its own ring or full.
pub proof fn lemma_lod_at_least_ring(loci: Seq<InterestLocus>, cfg: InterestConfig, l: InterestLocus)
    ensures
        spec_lod(loci, cfg, l) == base_lod(loci, cfg, l) || spec_lod(loci, cfg, l) == SimLod::Full,
{
}

/// The ring distance between two poses is their Chebyshev distance in the XZ
/// plane: the larger of the X and Z gaps (height plays no part), whenever
/// both gaps fit an `i32`.
pub proof fn lemma_cheb_is_xz_chebyshev(a: PoseMm, b: PoseMm)
    requires
        crate::arith::abs_int(a.x.0 - b.x.0) <= i32::MAX,
        crate::arith::abs_int(a.z.0 - b.z.0) <= i32::MAX,
    ensures
        spec_cheb(a, b) >= crate::arith::abs_int(a.x.0 - b.x.0),
        spec_cheb(a, b) >= crate::arith::abs_int(a.z.0 - b.z.0),
        spec_cheb(a, b) == crate::arith::abs_int(a.x.0 - b.x.0) || spec_cheb(a, b) == crate::arith::abs_int(
            a.z.0 - b.z.0,
        ),
{
}

/// The XZ gaps from every observer to `p` fit an `i32`.
pub open spec fn gaps_fit(obs: Seq<PoseMm>, p: PoseMm) -> bool {
    forall|i: int|
        0 <= i < obs.len() ==> crate::arith::abs_int(#[trigger] obs[i].x.0 - p.x.0) <= i32::MAX
            && crate::arith::abs_int(obs[i].z.0 - p.z.0) <= i32::MAX
}

/// The nearest-observer distance is at most the distance to each observer,
/// and equals that of one of them.
pub proof fn lemma_nearest_is_least(obs: Seq<PoseMm>, p: PoseMm)
    requires
        obs.len() > 0,
    ensures
        forall|i: int| 0 <= i < obs.len() ==> nearest(obs, p) <= #[trigger] spec_cheb(obs[i], p),
        exists|i: int| 0 <= i < obs.len() && nearest(obs, p) == #[trigger] spec_cheb(obs[i], p),
    decreases obs.len(),
{
    let last = obs.len() - 1;
    if obs.len() == 1 {
        assert(nearest(obs.drop_last(), p) == i32::MAX);
        assert(nearest(obs, p) == spec_cheb(obs[last], p));
    } else {
        let rest = obs.drop_last();
        lemma_nearest_is_least(rest, p);
        assert forall|i: int| 0 <= i < obs.len() implies nearest(obs, p) <= #[trigger] spec_cheb(obs[i], p) by {
            if i < last {
                assert(rest[i] == obs[i]);
                assert(nearest(rest, p) <= spec_cheb(rest[i], p));
            }
        }
        if spec_cheb(obs.last(), p) < nearest(rest, p) {
            assert(nearest(obs, p) == spec_cheb(obs[last], p));
        } else {
            let j = choose|j: int| 0 <= j < rest.len() && nearest(rest, p) == #[trigger] spec_cheb(rest[j], p);
            assert(rest[j] == obs[j]);
            assert(nearest(obs, p) == spec_cheb(obs[j], p));
        }
    }
}

/// With observers about, a pose farther than both ring radii (in XZ
/// Chebyshev distance) from every observer is dormant, and one within the
/// full radius of some observer is full.
pub proof fn lemma_ring_by_distance(obs: Seq<PoseMm>, p: PoseMm, cfg: InterestConfig)
    requires
        obs.len() > 0,
        gaps_fit(obs, p),
    ensures
        (forall|i: int|
            0 <= i < obs.len() ==> (crate::arith::abs_int(#[trigger] obs[i].x.0 - p.x.0) > cfg.far_mm
                || crate::arith::abs_int(obs[i].z.0 - p.z.0) > cfg.far_mm) && (crate::arith::abs_int(
                obs[i].x.0 - p.x.0,
            ) > cfg.full_mm || crate::arith::abs_int(obs[i].z.0 - p.z.0) > cfg.full_mm)) ==> spec_ring(
            obs,
            p,
            cfg,
        ) == SimLod::Dormant,
        (exists|i: int|
            0 <= i < obs.len() && crate::arith::abs_int(#[trigger] obs[i].x.0 - p.x.0) <= cfg.full_mm
                && crate::arith::abs_int(obs[i].z.0 - p.z.0) <= cfg.full_mm) ==> spec_ring(obs, p, cfg)
            == SimLod::Full,
{
    lemma_nearest_is_least(obs, p);
    assert forall|i: int| 0 <= i < obs.len() implies {
        let c = #[trigger] spec_cheb(obs[i], p);
        &&& c >= crate::arith::abs_int(obs[i].x.0 - p.x.0)
        &&& c >= crate::arith::abs_int(obs[i].z.0 - p.z.0)
        &&& (c == crate::arith::abs_int(obs[i].x.0 - p.x.0) || c == crate::arith::abs_int(obs[i].z.0 - p.z.0))
    } by {
        assert(crate::arith::abs_int(obs[i].x.0 - p.x.0) <= i32::MAX);
        lemma_cheb_is_xz_chebyshev(obs[i], p);
    }
    let j = choose|j: int| 0 <= j < obs.len() && nearest(obs, p) == #[trigger] spec_cheb(obs[j], p);
    assert(0 <= j < obs.len());
    if exists|i: int|
        0 <= i < obs.len() && crate::arith::abs_int(#[trigger] obs[i].x.0 - p.x.0) <= cfg.full_mm
            && crate::arith::abs_int(obs[i].z.0 - p.z.0) <= cfg.full_mm {
        let i = choose|i: int|
            0 <= i < obs.len() && crate::arith::abs_int(#[trigger] obs[i].x.0 - p.x.0) <= cfg.full_mm
                && crate::arith::abs_int(obs[i].z.0 - p.z.0) <= cfg.full_mm;
        assert(nearest(obs, p) <= spec_cheb(obs[i], p));
    }
}

} // verus!

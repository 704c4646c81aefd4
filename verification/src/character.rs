//! Bounded integer capsule traversal against immutable obstacles.
use vstd::prelude::*;

use crate::arith::{abs_int, div_trunc, tdiv};
use crate::cast::{spec_swept, swept_against, CONTACT_SLOP_MM};
use crate::collide::{contact, spec_contact};
use crate::physics::{CharacterPhysics, PoseMm, QuantizedContact, Support};
use crate::query::{bounds, sat32, sat_add, spec_bounds};
use crate::shape::{GeomError, Shape};
use crate::space::IVec3;
use crate::units::Mm;

verus! {

/// Hard cap on nearby occupancy per driven-character solve.
pub const MAX_CHARACTER_OBSTACLES: usize = 512;

/// One immutable obstacle for a character query, in canonical identity order.
#[derive(Copy, Clone, Debug)]
pub struct CharacterObstacle {
    /// Canonical geometry.
    pub shape: Shape,
    /// Authoritative obstacle pose.
    pub pose: PoseMm,
}

/// Resolved capsule pose and grounding evidence.
#[derive(Copy, Clone, PartialEq, Eq, Debug)]
pub struct CharacterResolution {
    /// The only root pose offered for admission.
    pub pose: PoseMm,
    /// Walkable support normal and depth, if grounded.
    pub support: Option<Support>,
}

/// Every obstacle shape is well formed.
pub open spec fn obstacles_ok(obstacles: Seq<CharacterObstacle>) -> bool {
    forall|i: int| 0 <= i < obstacles.len() ==> #[trigger] obstacles[i].shape.spec_well_formed()
}

/// `pose` moved by `d`, each axis saturating.
pub open spec fn spec_translate(pose: PoseMm, d: IVec3) -> PoseMm {
    PoseMm {
        x: Mm(sat32(pose.x.0 + d.x)),
        y: Mm(sat32(pose.y.0 + d.y)),
        z: Mm(sat32(pose.z.0 + d.z)),
        ..pose
    }
}

fn translate(pose: PoseMm, d: IVec3) -> (r: PoseMm)
    ensures
        r == spec_translate(pose, d),
{
    PoseMm {
        x: Mm(sat_add(pose.x.0, d.x)),
        y: Mm(sat_add(pose.y.0, d.y)),
        z: Mm(sat_add(pose.z.0, d.z)),
        ..pose
    }
}

/// Does the shape at `pose` overlap obstacle `o` deeper than the slop?
pub open spec fn blocks(shape: Shape, pose: PoseMm, o: CharacterObstacle) -> Result<bool, GeomError> {
    match spec_contact(shape, pose, o.shape, o.pose) {
        Err(e) => Err(e),
        Ok(None) => Ok(false),
        Ok(Some(h)) => Ok(h.depth_mm > CONTACT_SLOP_MM),
    }
}

/// No obstacle among the first `k` blocks the shape; the first failure in
/// obstacle order is reported.
pub open spec fn clear_fold(shape: Shape, pose: PoseMm, obstacles: Seq<CharacterObstacle>, k: nat) -> Result<bool, GeomError>
    decreases k,
{
    if k == 0 {
        Ok(true)
    } else {
        match clear_fold(shape, pose, obstacles, (k - 1) as nat) {
            Err(e) => Err(e),
            Ok(false) => Ok(false),
            Ok(true) => match blocks(shape, pose, obstacles[k - 1]) {
                Err(e) => Err(e),
                Ok(b) => Ok(!b),
            },
        }
    }
}

/// No obstacle blocks the shape at `pose`.
pub open spec fn spec_clear(shape: Shape, pose: PoseMm, obstacles: Seq<CharacterObstacle>) -> Result<bool, GeomError> {
    clear_fold(shape, pose, obstacles, obstacles.len())
}

proof fn lemma_clear_fold_stops(shape: Shape, pose: PoseMm, obstacles: Seq<CharacterObstacle>, k: nat, m: nat)
    requires
        k <= m,
        clear_fold(shape, pose, obstacles, k) != Ok::<bool, GeomError>(true),
    ensures
        clear_fold(shape, pose, obstacles, m) == clear_fold(shape, pose, obstacles, k),
    decreases m,
{
    if m > k {
        lemma_clear_fold_stops(shape, pose, obstacles, k, (m - 1) as nat);
    }
}

fn clear(shape: Shape, pose: PoseMm, obstacles: &[CharacterObstacle]) -> (r: Result<bool, GeomError>)
    requires
        shape.spec_well_formed(),
        obstacles_ok(obstacles@),
    ensures
        r == spec_clear(shape, pose, obstacles@),
{
    let mut i: usize = 0;
    while i < obstacles.len()
        invariant
            0 <= i <= obstacles@.len(),
            shape.spec_well_formed(),
            obstacles_ok(obstacles@),
            clear_fold(shape, pose, obstacles@, i as nat) == Ok::<bool, GeomError>(true),
        decreases obstacles@.len() - i,
    {
        let o = obstacles[i];
        proof {
            assert(obstacles@[i as int].shape.spec_well_formed());
        }
        match contact(shape, pose, o.shape, o.pose) {
            Err(e) => {
                proof {
                    lemma_clear_fold_stops(shape, pose, obstacles@, (i + 1) as nat, obstacles@.len());
                }
                return Err(e);
            },
            Ok(Some(h)) => {
                if h.depth_mm > CONTACT_SLOP_MM {
                    proof {
                        lemma_clear_fold_stops(shape, pose, obstacles@, (i + 1) as nat, obstacles@.len());
                    }
                    return Ok(false);
                }
            },
            Ok(None) => {},
        }
        i = i + 1;
    }
    Ok(true)
}

/// Does the conservative cast from `from` to `to` cross obstacle `o`?
#[verifier::opaque]
pub open spec fn crossing_of(shape: Shape, from: PoseMm, to: PoseMm, o: CharacterObstacle) -> Result<bool, GeomError> {
    match spec_swept(shape, from, to, o.shape, o.pose) {
        Err(e) => Err(e),
        Ok(h) => Ok(h.crossing),
    }
}

fn crossing(shape: Shape, from: PoseMm, to: PoseMm, o: CharacterObstacle) -> (r: Result<bool, GeomError>)
    requires
        shape.spec_well_formed(),
        o.shape.spec_well_formed(),
    ensures
        r == crossing_of(shape, from, to, o),
{
    reveal(crossing_of);
    match swept_against(shape, from, to, o.shape, o.pose) {
        Err(e) => Err(e),
        Ok(h) => Ok(h.crossing),
    }
}

/// No obstacle among the first `k` is crossed by the conservative cast from
/// `from` to `to`; the first failure in obstacle order is reported.
pub open spec fn cross_fold(shape: Shape, from: PoseMm, to: PoseMm, obstacles: Seq<CharacterObstacle>, k: nat) -> Result<bool, GeomError>
    decreases k,
{
    if k == 0 {
        Ok(true)
    } else {
        match cross_fold(shape, from, to, obstacles, (k - 1) as nat) {
            Err(e) => Err(e),
            Ok(false) => Ok(false),
            Ok(true) => match crossing_of(shape, from, to, obstacles[k - 1]) {
                Err(e) => Err(e),
                Ok(c) => Ok(!c),
            },
        }
    }
}

/// The destination is clear and no obstacle is crossed on the way there.
pub open spec fn spec_clear_path(shape: Shape, from: PoseMm, to: PoseMm, obstacles: Seq<CharacterObstacle>) -> Result<bool, GeomError> {
    match spec_clear(shape, to, obstacles) {
        Err(e) => Err(e),
        Ok(false) => Ok(false),
        Ok(true) => cross_fold(shape, from, to, obstacles, obstacles.len()),
    }
}

proof fn lemma_cross_fold_stops(shape: Shape, from: PoseMm, to: PoseMm, obstacles: Seq<CharacterObstacle>, k: nat, m: nat)
    requires
        k <= m,
        cross_fold(shape, from, to, obstacles, k) != Ok::<bool, GeomError>(true),
    ensures
        cross_fold(shape, from, to, obstacles, m) == cross_fold(shape, from, to, obstacles, k),
    decreases m,
{
    if m > k {
        lemma_cross_fold_stops(shape, from, to, obstacles, k, (m - 1) as nat);
    }
}

/// The destination is clear and no obstacle is crossed by the conservative
/// cast from `from` to `to`. A `true` verdict implies a clear destination.
fn clear_path(shape: Shape, from: PoseMm, to: PoseMm, obstacles: &[CharacterObstacle]) -> (r: Result<bool, GeomError>)
    requires
        shape.spec_well_formed(),
        obstacles_ok(obstacles@),
    ensures
        r == spec_clear_path(shape, from, to, obstacles@),
        r == Ok::<bool, GeomError>(true) ==> spec_clear(shape, to, obstacles@) == Ok::<bool, GeomError>(true),
{
    match clear(shape, to, obstacles) {
        Err(e) => return Err(e),
        Ok(false) => return Ok(false),
        Ok(true) => {},
    }
    let mut i: usize = 0;
    while i < obstacles.len()
        invariant
            0 <= i <= obstacles@.len(),
            shape.spec_well_formed(),
            obstacles_ok(obstacles@),
            spec_clear(shape, to, obstacles@) == Ok::<bool, GeomError>(true),
            cross_fold(shape, from, to, obstacles@, i as nat) == Ok::<bool, GeomError>(true),
        decreases obstacles@.len() - i,
    {
        let o = obstacles[i];
        proof {
            assert(obstacles@[i as int].shape.spec_well_formed());
        }
        match crossing(shape, from, to, o) {
            Err(e) => {
                proof {
                    lemma_cross_fold_stops(shape, from, to, obstacles@, (i + 1) as nat, obstacles@.len());
                }
                return Err(e);
            },
            Ok(crossed) => {
                if crossed {
                    proof {
                        lemma_cross_fold_stops(shape, from, to, obstacles@, (i + 1) as nat, obstacles@.len());
                    }
                    return Ok(false);
                }
            },
        }
        i = i + 1;
    }
    Ok(true)
}

/// The push-out offset for a contact: `depth + 1` along the normal.
pub open spec fn push_of(h: QuantizedContact) -> IVec3 {
    let d = h.depth_mm + 1;
    IVec3 {
        x: tdiv(d * h.normal.0, 32767) as i32,
        y: tdiv(d * h.normal.1, 32767) as i32,
        z: tdiv(d * h.normal.2, 32767) as i32,
    }
}

/// One push-out pass over the first `k` obstacles, each contact deeper than
/// the slop moving the shape out along its normal.
pub open spec fn dep_pass(shape: Shape, pose: PoseMm, obstacles: Seq<CharacterObstacle>, k: nat) -> Result<PoseMm, GeomError>
    decreases k,
{
    if k == 0 {
        Ok(pose)
    } else {
        match dep_pass(shape, pose, obstacles, (k - 1) as nat) {
            Err(e) => Err(e),
            Ok(p) => match spec_contact(shape, p, obstacles[k - 1].shape, obstacles[k - 1].pose) {
                Err(e) => Err(e),
                Ok(None) => Ok(p),
                Ok(Some(h)) => if h.depth_mm > CONTACT_SLOP_MM {
                    Ok(spec_translate(p, push_of(h)))
                } else {
                    Ok(p)
                },
            },
        }
    }
}

/// Up to `n` push-out passes, stopping at the first clear pose;
/// `Malformed` when the shape is still blocked after them.
pub open spec fn dep_rounds(shape: Shape, pose: PoseMm, obstacles: Seq<CharacterObstacle>, n: nat) -> Result<PoseMm, GeomError>
    decreases n,
{
    if n == 0 {
        Err(GeomError::Malformed)
    } else {
        match dep_pass(shape, pose, obstacles, obstacles.len()) {
            Err(e) => Err(e),
            Ok(p) => match spec_clear(shape, p, obstacles) {
                Err(e) => Err(e),
                Ok(true) => Ok(p),
                Ok(false) => dep_rounds(shape, p, obstacles, (n - 1) as nat),
            },
        }
    }
}

/// Depenetration: at most eight push-out passes.
pub open spec fn spec_depenetrate(shape: Shape, start: PoseMm, obstacles: Seq<CharacterObstacle>) -> Result<PoseMm, GeomError> {
    dep_rounds(shape, start, obstacles, 8)
}

proof fn lemma_dep_pass_err(shape: Shape, pose: PoseMm, obstacles: Seq<CharacterObstacle>, k: nat, m: nat)
    requires
        k <= m,
        dep_pass(shape, pose, obstacles, k) is Err,
    ensures
        dep_pass(shape, pose, obstacles, m) == dep_pass(shape, pose, obstacles, k),
    decreases m,
{
    if m > k {
        lemma_dep_pass_err(shape, pose, obstacles, k, (m - 1) as nat);
    }
}

/// Push the shape out along contact normals, at most eight rounds over the
/// obstacles, until it is clear. `Malformed` when still blocked.
fn depenetrate(shape: Shape, start: PoseMm, obstacles: &[CharacterObstacle]) -> (r: Result<PoseMm, GeomError>)
    requires
        shape.spec_well_formed(),
        obstacles_ok(obstacles@),
    ensures
        r == spec_depenetrate(shape, start, obstacles@),
        r matches Ok(p) ==> spec_clear(shape, p, obstacles@) == Ok::<bool, GeomError>(true),
{
    let mut pose = start;
    let mut round: usize = 0;
    while round < 8
        invariant
            round <= 8,
            shape.spec_well_formed(),
            obstacles_ok(obstacles@),
            dep_rounds(shape, start, obstacles@, 8) == dep_rounds(shape, pose, obstacles@, (8 - round) as nat),
        decreases 8 - round,
    {
        let ghost base = pose;
        let mut i: usize = 0;
        while i < obstacles.len()
            invariant
                0 <= i <= obstacles@.len(),
                shape.spec_well_formed(),
                obstacles_ok(obstacles@),
                dep_pass(shape, base, obstacles@, i as nat) == Ok::<PoseMm, GeomError>(pose),
                round < 8,
                dep_rounds(shape, start, obstacles@, 8) == dep_rounds(shape, base, obstacles@, (8 - round) as nat),
            decreases obstacles@.len() - i,
        {
            let o = obstacles[i];
            proof {
                assert(obstacles@[i as int].shape.spec_well_formed());
            }
            match contact(shape, pose, o.shape, o.pose) {
                Err(e) => {
                    proof {
                        lemma_dep_pass_err(shape, base, obstacles@, (i + 1) as nat, obstacles@.len());
                        assert(dep_pass(shape, base, obstacles@, obstacles@.len()) == Err::<PoseMm, GeomError>(e));
                        assert(dep_rounds(shape, base, obstacles@, (8 - round) as nat) == Err::<PoseMm, GeomError>(e));
                    }
                    return Err(e);
                },
                Ok(Some(h)) => {
                    if h.depth_mm > CONTACT_SLOP_MM {
                        let d = (h.depth_mm as i64) + 1;
                        let (n0, n1, n2) = h.normal;
                        proof {
                            assert(-0x1_0000_0000_0000 <= d * n0 <= 0x1_0000_0000_0000) by (nonlinear_arith)
                                requires
                                    0 <= d <= 0x8000_0000,
                                    -32768 <= n0 <= 32767,
                            {
                            }
                            assert(-0x1_0000_0000_0000 <= d * n1 <= 0x1_0000_0000_0000) by (nonlinear_arith)
                                requires
                                    0 <= d <= 0x8000_0000,
                                    -32768 <= n1 <= 32767,
                            {
                            }
                            assert(-0x1_0000_0000_0000 <= d * n2 <= 0x1_0000_0000_0000) by (nonlinear_arith)
                                requires
                                    0 <= d <= 0x8000_0000,
                                    -32768 <= n2 <= 32767,
                            {
                            }
                        }
                        pose = translate(
                            pose,
                            IVec3 {
                                x: div_trunc(d * (n0 as i64), 32767) as i32,
                                y: div_trunc(d * (n1 as i64), 32767) as i32,
                                z: div_trunc(d * (n2 as i64), 32767) as i32,
                            },
                        );
                    }
                },
                Ok(None) => {},
            }
            i = i + 1;
        }
        proof {
            assert(dep_pass(shape, base, obstacles@, obstacles@.len()) == Ok::<PoseMm, GeomError>(pose));
        }
        match clear(shape, pose, obstacles) {
            Err(e) => return Err(e),
            Ok(true) => return Ok(pose),
            Ok(false) => {},
        }
        proof {
            assert(dep_rounds(shape, base, obstacles@, (8 - round) as nat) == dep_rounds(
                shape,
                pose,
                obstacles@,
                (8 - round - 1) as nat,
            ));
        }
        round = round + 1;
    }
    Err(GeomError::Malformed)
}

/// Support of obstacle `o` under the probe: its packed normal when it is
/// walkable or a low riser (a non-terrain obstacle with an upward normal
/// whose top is within a step of the shape's foot).
#[verifier::opaque]
pub open spec fn support_candidate(
    shape: Shape,
    pose: PoseMm,
    probe: PoseMm,
    policy: CharacterPhysics,
    o: CharacterObstacle,
) -> Result<Option<(i16, i16, i16)>, GeomError> {
    match spec_contact(shape, probe, o.shape, o.pose) {
        Err(e) => Err(e),
        Ok(None) => Ok(None),
        Ok(Some(h)) => {
            let riser: Result<bool, GeomError> = if h.normal.1 > 0 {
                match spec_bounds(o.shape, o.pose) {
                    Err(e) => Err(e),
                    Ok(ob) => match spec_bounds(shape, pose) {
                        Err(e) => Err(e),
                        Ok(sb) => Ok(ob.max.y - sb.min.y <= policy.step_mm),
                    },
                }
            } else {
                Ok(false)
            };
            match riser {
                Err(e) => Err(e),
                Ok(low) => if h.normal.1 >= policy.slope_min_y || low {
                    Ok(Some(h.normal))
                } else {
                    Ok(None)
                },
            }
        },
    }
}

/// Steepest-up support among the first `k` obstacles (the first of equals).
pub open spec fn support_fold(
    shape: Shape,
    pose: PoseMm,
    probe: PoseMm,
    policy: CharacterPhysics,
    obstacles: Seq<CharacterObstacle>,
    k: nat,
) -> Result<Option<Support>, GeomError>
    decreases k,
{
    if k == 0 {
        Ok(None)
    } else {
        match support_fold(shape, pose, probe, policy, obstacles, (k - 1) as nat) {
            Err(e) => Err(e),
            Ok(best) => match support_candidate(shape, pose, probe, policy, obstacles[k - 1]) {
                Err(e) => Err(e),
                Ok(None) => Ok(best),
                Ok(Some(n)) => if best is None || best->Some_0.1 < n.1 {
                    Ok(Some((n.0, n.1, n.2, 0i32)))
                } else {
                    Ok(best)
                },
            },
        }
    }
}

/// Walkable support 3 mm below `pose`, if any.
pub open spec fn spec_support_at(
    shape: Shape,
    pose: PoseMm,
    policy: CharacterPhysics,
    obstacles: Seq<CharacterObstacle>,
) -> Result<Option<Support>, GeomError> {
    let probe = spec_translate(pose, IVec3 { x: 0, y: -3i32, z: 0 });
    support_fold(shape, pose, probe, policy, obstacles, obstacles.len())
}

proof fn lemma_support_fold_err(
    shape: Shape,
    pose: PoseMm,
    probe: PoseMm,
    policy: CharacterPhysics,
    obstacles: Seq<CharacterObstacle>,
    k: nat,
    m: nat,
)
    requires
        k <= m,
        support_fold(shape, pose, probe, policy, obstacles, k) is Err,
    ensures
        support_fold(shape, pose, probe, policy, obstacles, m) == support_fold(shape, pose, probe, policy, obstacles, k),
    decreases m,
{
    if m > k {
        lemma_support_fold_err(shape, pose, probe, policy, obstacles, k, (m - 1) as nat);
    }
}

fn candidate(
    shape: Shape,
    pose: PoseMm,
    probe: PoseMm,
    policy: CharacterPhysics,
    o: CharacterObstacle,
) -> (r: Result<Option<(i16, i16, i16)>, GeomError>)
    requires
        shape.spec_well_formed(),
        o.shape.spec_well_formed(),
    ensures
        r == support_candidate(shape, pose, probe, policy, o),
{
    reveal(support_candidate);
    let h = match contact(shape, probe, o.shape, o.pose) {
        Err(e) => return Err(e),
        Ok(None) => return Ok(None),
        Ok(Some(h)) => h,
    };
    let low = if h.normal.1 > 0 {
        let ob = match bounds(o.shape, o.pose) {
            Err(e) => return Err(e),
            Ok(b) => b,
        };
        let sb = match bounds(shape, pose) {
            Err(e) => return Err(e),
            Ok(b) => b,
        };
        (ob.max.y as i64) - (sb.min.y as i64) <= policy.step_mm as i64
    } else {
        false
    };
    if h.normal.1 >= policy.slope_min_y || low {
        Ok(Some(h.normal))
    } else {
        Ok(None)
    }
}

/// Walkable support below `pose`.
fn support_at(shape: Shape, pose: PoseMm, policy: CharacterPhysics, obstacles: &[CharacterObstacle]) -> (r: Result<
    Option<Support>,
    GeomError,
>)
    requires
        shape.spec_well_formed(),
        obstacles_ok(obstacles@),
    ensures
        r == spec_support_at(shape, pose, policy, obstacles@),
{
    let probe = translate(pose, IVec3 { x: 0, y: -CONTACT_SLOP_MM - 1, z: 0 });
    let mut best: Option<Support> = None;
    let mut i: usize = 0;
    while i < obstacles.len()
        invariant
            0 <= i <= obstacles@.len(),
            shape.spec_well_formed(),
            obstacles_ok(obstacles@),
            probe == spec_translate(pose, IVec3 { x: 0, y: -3i32, z: 0 }),
            support_fold(shape, pose, probe, policy, obstacles@, i as nat) == Ok::<Option<Support>, GeomError>(best),
        decreases obstacles@.len() - i,
    {
        let o = obstacles[i];
        proof {
            assert(obstacles@[i as int].shape.spec_well_formed());
        }
        match candidate(shape, pose, probe, policy, o) {
            Err(e) => {
                proof {
                    lemma_support_fold_err(shape, pose, probe, policy, obstacles@, (i + 1) as nat, obstacles@.len());
                }
                return Err(e);
            },
            Ok(None) => {},
            Ok(Some(n)) => {
                let take = match best {
                    None => true,
                    Some(s) => s.1 < n.1,
                };
                if take {
                    best = Some((n.0, n.1, n.2, 0));
                }
            },
        }
        i = i + 1;
    }
    Ok(best)
}

/// `v` clamped to the `i32` range.
pub open spec fn clamp32(v: int) -> int {
    if v > i32::MAX {
        i32::MAX as int
    } else if v < i32::MIN {
        i32::MIN as int
    } else {
        v
    }
}

/// `pose` lowered by `d` millimetres.
pub open spec fn lowered(pose: PoseMm, d: int) -> PoseMm {
    spec_translate(pose, IVec3 { x: 0, y: (-d) as i32, z: 0 })
}

/// The largest clear drop in `[lo, hi]`, found by bisection (assuming a
/// clear drop of `lo`).
pub open spec fn bisect(shape: Shape, pose: PoseMm, obstacles: Seq<CharacterObstacle>, lo: int, hi: int) -> Result<int, GeomError>
    decreases hi - lo,
{
    if lo >= hi {
        Ok(lo)
    } else {
        let mid = (lo + hi + 1) / 2;
        match spec_clear(shape, lowered(pose, mid), obstacles) {
            Err(e) => Err(e),
            Ok(true) => bisect(shape, pose, obstacles, mid, hi),
            Ok(false) => bisect(shape, pose, obstacles, lo, mid - 1),
        }
    }
}

/// At most `n` more 16 mm lowering intervals from `pose`, until `distance`
/// below `start` is covered; a blocked interval ends at the lowest clear
/// drop inside it.
pub open spec fn desc_rounds(
    shape: Shape,
    start: PoseMm,
    distance: int,
    obstacles: Seq<CharacterObstacle>,
    pose: PoseMm,
    n: nat,
) -> Result<PoseMm, GeomError>
    decreases n,
{
    if n == 0 {
        Ok(pose)
    } else {
        let remaining = distance - clamp32(start.y.0 - pose.y.0);
        if remaining <= 0 {
            Ok(pose)
        } else {
            let step = if remaining < 16 {
                remaining
            } else {
                16
            };
            let down = lowered(pose, step);
            match spec_clear_path(shape, pose, down, obstacles) {
                Err(e) => Err(e),
                Ok(true) => desc_rounds(shape, start, distance, obstacles, down, (n - 1) as nat),
                Ok(false) => match bisect(shape, pose, obstacles, 0, step) {
                    Err(e) => Err(e),
                    Ok(lo) => Ok(
                        if lo > 0 {
                            lowered(pose, lo)
                        } else {
                            pose
                        },
                    ),
                },
            }
        }
    }
}

/// Lowering by up to `distance`: `distance / 16 + 1` intervals, then the
/// shape's bounds must exist at the result.
pub open spec fn spec_descend(shape: Shape, start: PoseMm, distance: int, obstacles: Seq<CharacterObstacle>) -> Result<PoseMm, GeomError> {
    match desc_rounds(shape, start, distance, obstacles, start, (distance / 16 + 1) as nat) {
        Err(e) => Err(e),
        Ok(p) => match spec_bounds(shape, p) {
            Err(e) => Err(e),
            Ok(_) => Ok(p),
        },
    }
}

fn finish_descend(shape: Shape, pose: PoseMm) -> (r: Result<PoseMm, GeomError>)
    ensures
        r == (match spec_bounds(shape, pose) {
            Err(e) => Err(e),
            Ok(_) => Ok::<PoseMm, GeomError>(pose),
        }),
{
    match bounds(shape, pose) {
        Err(e) => Err(e),
        Ok(_) => Ok(pose),
    }
}

fn bisect_exec(shape: Shape, pose: PoseMm, obstacles: &[CharacterObstacle], step: i32) -> (r: Result<i32, GeomError>)
    requires
        shape.spec_well_formed(),
        obstacles_ok(obstacles@),
        0 <= step <= 16,
    ensures
        match r {
            Ok(lo) => bisect(shape, pose, obstacles@, 0, step as int) == Ok::<int, GeomError>(lo as int) && 0 <= lo
                <= step && (lo > 0 ==> spec_clear(shape, lowered(pose, lo as int), obstacles@) == Ok::<
                bool,
                GeomError,
            >(true)),
            Err(e) => bisect(shape, pose, obstacles@, 0, step as int) == Err::<int, GeomError>(e),
        },
{
    let mut lo: i32 = 0;
    let mut hi: i32 = step;
    while lo < hi
        invariant
            0 <= lo <= hi <= step <= 16,
            shape.spec_well_formed(),
            obstacles_ok(obstacles@),
            lo > 0 ==> spec_clear(shape, lowered(pose, lo as int), obstacles@) == Ok::<bool, GeomError>(true),
            bisect(shape, pose, obstacles@, 0, step as int) == bisect(shape, pose, obstacles@, lo as int, hi as int),
        decreases hi - lo,
    {
        let mid = (lo + hi + 1) / 2;
        match clear(shape, translate(pose, IVec3 { x: 0, y: -mid, z: 0 }), obstacles) {
            Err(e) => return Err(e),
            Ok(true) => {
                lo = mid;
            },
            Ok(false) => {
                hi = mid - 1;
            },
        }
    }
    Ok(lo)
}

/// Lower the shape by up to `distance` in 16 mm intervals, stopping at the
/// first blocked interval at the lowest clear offset found by bisection.
/// A clear start yields a clear result.
#[verifier::rlimit(40)]
fn descend(shape: Shape, start: PoseMm, distance: i32, obstacles: &[CharacterObstacle]) -> (r: Result<PoseMm, GeomError>)
    requires
        shape.spec_well_formed(),
        obstacles_ok(obstacles@),
        0 <= distance <= 1000,
        spec_clear(shape, start, obstacles@) == Ok::<bool, GeomError>(true),
    ensures
        r == spec_descend(shape, start, distance as int, obstacles@),
        r matches Ok(p) ==> spec_clear(shape, p, obstacles@) == Ok::<bool, GeomError>(true),
{
    let mut pose = start;
    let rounds = distance / 16 + 1;
    let mut round: i32 = 0;
    while round < rounds
        invariant
            shape.spec_well_formed(),
            obstacles_ok(obstacles@),
            0 <= distance <= 1000,
            rounds == distance / 16 + 1,
            0 <= round <= rounds,
            spec_clear(shape, pose, obstacles@) == Ok::<bool, GeomError>(true),
            desc_rounds(shape, start, distance as int, obstacles@, start, rounds as nat) == desc_rounds(
                shape,
                start,
                distance as int,
                obstacles@,
                pose,
                (rounds - round) as nat,
            ),
        decreases rounds - round,
    {
        let moved = (start.y.0 as i64) - (pose.y.0 as i64);
        let moved = if moved > i32::MAX as i64 {
            i32::MAX as i64
        } else if moved < i32::MIN as i64 {
            i32::MIN as i64
        } else {
            moved
        };
        let remaining = (distance as i64) - moved;
        if remaining <= 0 {
            return finish_descend(shape, pose);
        }
        let step: i32 = if remaining < 16 {
            remaining as i32
        } else {
            16
        };
        let down = translate(pose, IVec3 { x: 0, y: -step, z: 0 });
        proof {
            assert(remaining == distance - clamp32(start.y.0 - pose.y.0));
            assert(down == lowered(pose, step as int));
        }
        match clear_path(shape, pose, down, obstacles) {
            Err(e) => return Err(e),
            Ok(true) => {
                pose = down;
                round = round + 1;
                continue;
            },
            Ok(false) => {},
        }
        let lo = match bisect_exec(shape, pose, obstacles, step) {
            Err(e) => return Err(e),
            Ok(lo) => lo,
        };
        if lo > 0 {
            pose = translate(pose, IVec3 { x: 0, y: -lo, z: 0 });
        }
        return finish_descend(shape, pose);
    }
    finish_descend(shape, pose)
}

/// Pre-checks of a character query: the obstacle cap, a capsule, a valid
/// policy and at most 1000 mm of desire per axis.
pub open spec fn character_query_ok(
    capsule: Shape,
    desire: IVec3,
    policy: CharacterPhysics,
    n_obstacles: int,
) -> bool {
    &&& n_obstacles <= MAX_CHARACTER_OBSTACLES
    &&& capsule is Capsule
    &&& policy.spec_is_valid()
    &&& -1000 <= desire.x <= 1000
    &&& -1000 <= desire.y <= 1000
    &&& -1000 <= desire.z <= 1000
}

fn abs_u(v: i32) -> (r: u32)
    ensures
        r == crate::arith::abs_int(v as int),
{
    if v < 0 {
        ((-(v as i64)) as u32)
    } else {
        v as u32
    }
}

/// Slope lift over the first `k` obstacles at `next`: whether every deep
/// contact is walkable, and the largest vertical lift that clears them
/// (the scan stops at the first unwalkable contact).
pub open spec fn lift_fold(
    capsule: Shape,
    next: PoseMm,
    policy: CharacterPhysics,
    obstacles: Seq<CharacterObstacle>,
    k: nat,
) -> Result<(bool, i32), GeomError>
    decreases k,
{
    if k == 0 {
        Ok((true, 0i32))
    } else {
        match lift_fold(capsule, next, policy, obstacles, (k - 1) as nat) {
            Err(e) => Err(e),
            Ok((false, l)) => Ok((false, l)),
            Ok((true, l)) => match spec_contact(capsule, next, obstacles[k - 1].shape, obstacles[k - 1].pose) {
                Err(e) => Err(e),
                Ok(None) => Ok((true, l)),
                Ok(Some(h)) => if h.depth_mm <= CONTACT_SLOP_MM {
                    Ok((true, l))
                } else if h.normal.1 < policy.slope_min_y {
                    Ok((false, l))
                } else {
                    let cand = (tdiv(h.depth_mm * 32767, h.normal.1 as int) + 1) as i32;
                    Ok((true, if cand > l { cand } else { l }))
                },
            },
        }
    }
}

proof fn lemma_lift_fold_stops(
    capsule: Shape,
    next: PoseMm,
    policy: CharacterPhysics,
    obstacles: Seq<CharacterObstacle>,
    k: nat,
    m: nat,
)
    requires
        k <= m,
        lift_fold(capsule, next, policy, obstacles, k) is Err || lift_fold(capsule, next, policy, obstacles, k) matches Ok(
            (false, _),
        ),
    ensures
        lift_fold(capsule, next, policy, obstacles, m) == lift_fold(capsule, next, policy, obstacles, k),
    decreases m,
{
    if m > k {
        lemma_lift_fold_stops(capsule, next, policy, obstacles, k, (m - 1) as nat);
    }
}

fn lift_scan(capsule: Shape, next: PoseMm, policy: CharacterPhysics, obstacles: &[CharacterObstacle]) -> (r: Result<
    (bool, i32),
    GeomError,
>)
    requires
        capsule.spec_well_formed(),
        obstacles_ok(obstacles@),
        policy.spec_is_valid(),
    ensures
        r == lift_fold(capsule, next, policy, obstacles@, obstacles@.len()),
{
    let mut lift: i32 = 0;
    let mut k: usize = 0;
    while k < obstacles.len()
        invariant
            0 <= k <= obstacles@.len(),
            capsule.spec_well_formed(),
            obstacles_ok(obstacles@),
            policy.spec_is_valid(),
            lift_fold(capsule, next, policy, obstacles@, k as nat) == Ok::<(bool, i32), GeomError>((true, lift)),
        decreases obstacles@.len() - k,
    {
        let o = obstacles[k];
        proof {
            assert(obstacles@[k as int].shape.spec_well_formed());
        }
        match contact(capsule, next, o.shape, o.pose) {
            Err(e) => {
                proof {
                    lemma_lift_fold_stops(capsule, next, policy, obstacles@, (k + 1) as nat, obstacles@.len());
                }
                return Err(e);
            },
            Ok(Some(hit)) => {
                if hit.depth_mm > CONTACT_SLOP_MM {
                    if hit.normal.1 < policy.slope_min_y {
                        proof {
                            lemma_lift_fold_stops(capsule, next, policy, obstacles@, (k + 1) as nat, obstacles@.len());
                        }
                        return Ok((false, lift));
                    }
                    proof {
                        assert(0 <= hit.depth_mm * 32767 <= 0x4000_0000_0000) by (nonlinear_arith)
                            requires
                                0 <= hit.depth_mm <= i32::MAX,
                        {
                        }
                    }
                    let q = div_trunc((hit.depth_mm as i64) * 32767, hit.normal.1 as i64) + 1;
                    let cand = q as i32;
                    if cand > lift {
                        lift = cand;
                    }
                }
            },
            Ok(None) => {},
        }
        k = k + 1;
    }
    Ok((true, lift))
}

/// Among the first `k` obstacles, one deeply contacted at `next` rises more
/// than a step above the shape's foot at `pose`.
pub open spec fn high_fold(
    capsule: Shape,
    pose: PoseMm,
    next: PoseMm,
    policy: CharacterPhysics,
    obstacles: Seq<CharacterObstacle>,
    k: nat,
) -> bool
    decreases k,
{
    if k == 0 {
        false
    } else if high_fold(capsule, pose, next, policy, obstacles, (k - 1) as nat) {
        true
    } else {
        let o = obstacles[k - 1];
        &&& spec_contact(capsule, next, o.shape, o.pose) matches Ok(Some(h)) && h.depth_mm > CONTACT_SLOP_MM
        &&& spec_bounds(o.shape, o.pose) is Ok
        &&& spec_bounds(capsule, pose) is Ok
        &&& spec_bounds(o.shape, o.pose)->Ok_0.max.y - spec_bounds(capsule, pose)->Ok_0.min.y > policy.step_mm
    }
}

proof fn lemma_high_fold_stops(
    capsule: Shape,
    pose: PoseMm,
    next: PoseMm,
    policy: CharacterPhysics,
    obstacles: Seq<CharacterObstacle>,
    k: nat,
    m: nat,
)
    requires
        k <= m,
        high_fold(capsule, pose, next, policy, obstacles, k),
    ensures
        high_fold(capsule, pose, next, policy, obstacles, m),
    decreases m,
{
    if m > k {
        lemma_high_fold_stops(capsule, pose, next, policy, obstacles, k, (m - 1) as nat);
    }
}

fn too_high_scan(
    capsule: Shape,
    pose: PoseMm,
    next: PoseMm,
    policy: CharacterPhysics,
    obstacles: &[CharacterObstacle],
) -> (r: bool)
    requires
        capsule.spec_well_formed(),
        obstacles_ok(obstacles@),
    ensures
        r == high_fold(capsule, pose, next, policy, obstacles@, obstacles@.len()),
{
    let mut m: usize = 0;
    while m < obstacles.len()
        invariant
            0 <= m <= obstacles@.len(),
            capsule.spec_well_formed(),
            obstacles_ok(obstacles@),
            !high_fold(capsule, pose, next, policy, obstacles@, m as nat),
        decreases obstacles@.len() - m,
    {
        let o = obstacles[m];
        proof {
            assert(obstacles@[m as int].shape.spec_well_formed());
        }
        let deep = match contact(capsule, next, o.shape, o.pose) {
            Ok(Some(h)) => h.depth_mm > CONTACT_SLOP_MM,
            _ => false,
        };
        if deep {
            match (bounds(o.shape, o.pose), bounds(capsule, pose)) {
                (Ok(a), Ok(b)) => {
                    if (a.max.y as i64) - (b.min.y as i64) > policy.step_mm as i64 {
                        proof {
                            lemma_high_fold_stops(capsule, pose, next, policy, obstacles@, (m + 1) as nat, obstacles@.len());
                        }
                        return true;
                    }
                },
                _ => {},
            }
        }
        m = m + 1;
    }
    false
}

/// The step path: up by the riser bound, across by the interval's
/// horizontal offset, then down; taken only when grounded, nothing
/// blocking is higher than a step, and the landing is supported and no
/// higher than a step. Otherwise the shape stays at `pose`.
pub open spec fn spec_step_up(
    capsule: Shape,
    policy: CharacterPhysics,
    grounded: bool,
    obstacles: Seq<CharacterObstacle>,
    pose: PoseMm,
    next: PoseMm,
    delta: IVec3,
) -> Result<PoseMm, GeomError> {
    if grounded && !high_fold(capsule, pose, next, policy, obstacles, obstacles.len()) && policy.step_mm > 0 && (
    delta.x != 0 || delta.z != 0) {
        let up = spec_translate(pose, IVec3 { x: 0, y: policy.step_mm, z: 0 });
        let over = spec_translate(up, IVec3 { x: delta.x, y: 0, z: delta.z });
        match spec_clear_path(capsule, pose, up, obstacles) {
            Err(e) => Err(e),
            Ok(false) => Ok(pose),
            Ok(true) => match spec_clear_path(capsule, up, over, obstacles) {
                Err(e) => Err(e),
                Ok(false) => Ok(pose),
                Ok(true) => match spec_descend(capsule, over, policy.step_mm as int, obstacles) {
                    Err(e) => Err(e),
                    Ok(landed) => match spec_support_at(capsule, landed, policy, obstacles) {
                        Err(e) => Err(e),
                        Ok(s) => if s is Some && landed.y.0 - pose.y.0 <= policy.step_mm {
                            Ok(landed)
                        } else {
                            Ok(pose)
                        },
                    },
                },
            },
        }
    } else {
        Ok(pose)
    }
}

fn step_up(
    capsule: Shape,
    policy: CharacterPhysics,
    grounded: bool,
    obstacles: &[CharacterObstacle],
    pose: PoseMm,
    next: PoseMm,
    delta: IVec3,
) -> (r: Result<PoseMm, GeomError>)
    requires
        capsule.spec_well_formed(),
        obstacles_ok(obstacles@),
        policy.spec_is_valid(),
        spec_clear(capsule, pose, obstacles@) == Ok::<bool, GeomError>(true),
    ensures
        r == spec_step_up(capsule, policy, grounded, obstacles@, pose, next, delta),
        r matches Ok(p) ==> spec_clear(capsule, p, obstacles@) == Ok::<bool, GeomError>(true),
{
    let too_high = too_high_scan(capsule, pose, next, policy, obstacles);
    if grounded && !too_high && policy.step_mm > 0 && (delta.x != 0 || delta.z != 0) {
        let up = translate(pose, IVec3 { x: 0, y: policy.step_mm, z: 0 });
        let over = translate(up, IVec3 { x: delta.x, y: 0, z: delta.z });
        let first = match clear_path(capsule, pose, up, obstacles) {
            Err(e) => return Err(e),
            Ok(b) => b,
        };
        if !first {
            return Ok(pose);
        }
        let second = match clear_path(capsule, up, over, obstacles) {
            Err(e) => return Err(e),
            Ok(b) => b,
        };
        if !second {
            return Ok(pose);
        }
        let landed = match descend(capsule, over, policy.step_mm, obstacles) {
            Err(e) => return Err(e),
            Ok(p) => p,
        };
        let supported = match support_at(capsule, landed, policy, obstacles) {
            Err(e) => return Err(e),
            Ok(s) => s.is_some(),
        };
        if supported && (landed.y.0 as i64) - (pose.y.0 as i64) <= policy.step_mm as i64 {
            return Ok(landed);
        }
    }
    Ok(pose)
}

/// One sweep interval from `pose` by `delta`: the plain move when its path
/// is clear; else a small slope lift (at most 32 mm) when every deep contact
/// is walkable and the lifted pose is clear; else the step path.
#[verifier::opaque]
pub open spec fn spec_interval(
    capsule: Shape,
    policy: CharacterPhysics,
    grounded: bool,
    obstacles: Seq<CharacterObstacle>,
    pose: PoseMm,
    delta: IVec3,
) -> Result<PoseMm, GeomError> {
    let next = spec_translate(pose, delta);
    match spec_clear_path(capsule, pose, next, obstacles) {
        Err(e) => Err(e),
        Ok(true) => Ok(next),
        Ok(false) => match lift_fold(capsule, next, policy, obstacles, obstacles.len()) {
            Err(e) => Err(e),
            Ok((walkable, lift)) => {
                let lifted = PoseMm { y: Mm(sat32(next.y.0 + lift)), ..next };
                if walkable && 0 < lift <= 32 {
                    match spec_clear(capsule, lifted, obstacles) {
                        Err(e) => Err(e),
                        Ok(true) => Ok(lifted),
                        Ok(false) => spec_step_up(capsule, policy, grounded, obstacles, pose, next, delta),
                    }
                } else {
                    spec_step_up(capsule, policy, grounded, obstacles, pose, next, delta)
                }
            },
        },
    }
}

fn interval(
    capsule: Shape,
    policy: CharacterPhysics,
    grounded: bool,
    obstacles: &[CharacterObstacle],
    pose: PoseMm,
    delta: IVec3,
) -> (r: Result<PoseMm, GeomError>)
    requires
        capsule.spec_well_formed(),
        obstacles_ok(obstacles@),
        policy.spec_is_valid(),
        spec_clear(capsule, pose, obstacles@) == Ok::<bool, GeomError>(true),
    ensures
        r == spec_interval(capsule, policy, grounded, obstacles@, pose, delta),
        r matches Ok(p) ==> spec_clear(capsule, p, obstacles@) == Ok::<bool, GeomError>(true),
{
    reveal(spec_interval);
    let next = translate(pose, delta);
    match clear_path(capsule, pose, next, obstacles) {
        Err(e) => return Err(e),
        Ok(true) => return Ok(next),
        Ok(false) => {},
    }
    let (walkable, lift) = match lift_scan(capsule, next, policy, obstacles) {
        Err(e) => return Err(e),
        Ok(v) => v,
    };
    if walkable && lift > 0 && lift <= 32 {
        let lifted = PoseMm { y: Mm(sat_add(next.y.0, lift)), ..next };
        match clear(capsule, lifted, obstacles) {
            Err(e) => return Err(e),
            Ok(true) => return Ok(lifted),
            Ok(false) => {},
        }
    }
    step_up(capsule, policy, grounded, obstacles, pose, next, delta)
}

/// The planned offset after `i` of `count` intervals.
pub open spec fn part_at(desire: IVec3, i: int, count: int) -> IVec3 {
    IVec3 {
        x: tdiv(desire.x * i, count) as i32,
        y: tdiv(desire.y * i, count) as i32,
        z: tdiv(desire.z * i, count) as i32,
    }
}

/// Number of sweep intervals: one per 16 mm of the largest axis, 1..=64.
pub open spec fn sweep_count(desire: IVec3) -> int {
    let ax = abs_int(desire.x as int);
    let ay = abs_int(desire.y as int);
    let az = abs_int(desire.z as int);
    let span = if ax > az { ax } else { az };
    let span = if span > ay { span } else { ay };
    let c = (span + 15) / 16;
    if c < 1 {
        1
    } else if c > 64 {
        64
    } else {
        c
    }
}

/// The sweep from interval `i` on, at `pose`, after reaching offset `prev`.
pub open spec fn spec_sweep(
    capsule: Shape,
    policy: CharacterPhysics,
    grounded: bool,
    obstacles: Seq<CharacterObstacle>,
    desire: IVec3,
    count: int,
    i: int,
    pose: PoseMm,
    prev: IVec3,
) -> Result<PoseMm, GeomError>
    decreases count + 1 - i,
{
    if i < 1 || i > count {
        Ok(pose)
    } else {
        let part = part_at(desire, i, count);
        let delta = IVec3 {
            x: part.x.wrapping_sub(prev.x),
            y: part.y.wrapping_sub(prev.y),
            z: part.z.wrapping_sub(prev.z),
        };
        match spec_interval(capsule, policy, grounded, obstacles, pose, delta) {
            Err(e) => Err(e),
            Ok(p) => spec_sweep(capsule, policy, grounded, obstacles, desire, count, i + 1, p, part),
        }
    }
}

/// The whole character query: depenetrate; note support; sweep the desire
/// in `sweep_count` intervals; snap a grounded, non-rising capsule down by
/// at most the riser bound plus the slop; report the support there.
pub open spec fn spec_resolve(
    capsule: Shape,
    start: PoseMm,
    desire: IVec3,
    policy: CharacterPhysics,
    obstacles: Seq<CharacterObstacle>,
) -> Result<CharacterResolution, GeomError> {
    match spec_depenetrate(capsule, start, obstacles) {
        Err(e) => Err(e),
        Ok(p0) => match spec_support_at(capsule, p0, policy, obstacles) {
            Err(e) => Err(e),
            Ok(s0) => {
                let grounded = s0 is Some;
                match spec_sweep(capsule, policy, grounded, obstacles, desire, sweep_count(desire), 1, p0, IVec3 { x: 0, y: 0, z: 0 }) {
                    Err(e) => Err(e),
                    Ok(p1) => {
                        let p2 = if grounded && desire.y <= 0 {
                            spec_descend(capsule, p1, policy.step_mm + CONTACT_SLOP_MM, obstacles)
                        } else {
                            Ok(p1)
                        };
                        match p2 {
                            Err(e) => Err(e),
                            Ok(p) => match spec_support_at(capsule, p, policy, obstacles) {
                                Err(e) => Err(e),
                                Ok(s) => Ok(CharacterResolution { pose: p, support: s }),
                            },
                        }
                    },
                }
            },
        },
    }
}

fn sweep_step(
    capsule: Shape,
    policy: CharacterPhysics,
    grounded: bool,
    obstacles: &[CharacterObstacle],
    desire: IVec3,
    count: i64,
    i: i64,
    pose: PoseMm,
    previous: IVec3,
) -> (r: Result<(PoseMm, IVec3), GeomError>)
    requires
        1 <= count <= 64,
        1 <= i <= count,
        obstacles_ok(obstacles@),
        capsule.spec_well_formed(),
        policy.spec_is_valid(),
        -1000 <= desire.x <= 1000,
        -1000 <= desire.y <= 1000,
        -1000 <= desire.z <= 1000,
        spec_clear(capsule, pose, obstacles@) == Ok::<bool, GeomError>(true),
    ensures
        match r {
            Ok((p, part)) => spec_clear(capsule, p, obstacles@) == Ok::<bool, GeomError>(true) && spec_sweep(
                capsule,
                policy,
                grounded,
                obstacles@,
                desire,
                count as int,
                i as int,
                pose,
                previous,
            ) == spec_sweep(capsule, policy, grounded, obstacles@, desire, count as int, i + 1, p, part),
            Err(e) => spec_sweep(capsule, policy, grounded, obstacles@, desire, count as int, i as int, pose, previous)
                == Err::<PoseMm, GeomError>(e),
        },
{
    proof {
        assert(-65000 <= desire.x * i <= 65000 && -65000 <= desire.y * i <= 65000 && -65000 <= desire.z * i <= 65000)
            by (nonlinear_arith)
            requires
                -1000 <= desire.x <= 1000,
                -1000 <= desire.y <= 1000,
                -1000 <= desire.z <= 1000,
                1 <= i <= 65,
        {
        }
    }
    let part = IVec3 {
        x: div_trunc((desire.x as i64) * i, count) as i32,
        y: div_trunc((desire.y as i64) * i, count) as i32,
        z: div_trunc((desire.z as i64) * i, count) as i32,
    };
    let delta = part.wrapping_sub(previous);
    proof {
        assert(part == part_at(desire, i as int, count as int));
    }
    match interval(capsule, policy, grounded, obstacles, pose, delta) {
        Err(e) => Err(e),
        Ok(p) => Ok((p, part)),
    }
}

/// Resolve at most 1000 mm on each axis in at most 64 bounded sweep
/// intervals. Walkable slopes use a small vertical lift; steps use an
/// up/forward/down path; a grounded capsule snaps down by at most the riser
/// bound plus the slop.
pub fn resolve_character(
    capsule: Shape,
    start: PoseMm,
    desire: IVec3,
    policy: CharacterPhysics,
    obstacles: &[CharacterObstacle],
) -> (r: Result<CharacterResolution, GeomError>)
    requires
        obstacles_ok(obstacles@),
    ensures
        !character_query_ok(capsule, desire, policy, obstacles@.len() as int) ==> r == Err::<
            CharacterResolution,
            GeomError,
        >(GeomError::Malformed),
        character_query_ok(capsule, desire, policy, obstacles@.len() as int) ==> r == spec_resolve(
            capsule,
            start,
            desire,
            policy,
            obstacles@,
        ),
        r matches Ok(res) ==> spec_clear(capsule, res.pose, obstacles@) == Ok::<bool, GeomError>(true)
            && spec_support_at(capsule, res.pose, policy, obstacles@) == Ok::<
            Option<Support>,
            GeomError,
        >(res.support),
{
    if obstacles.len() > MAX_CHARACTER_OBSTACLES || !matches!(capsule, Shape::Capsule { .. })
        || !policy.is_valid() || abs_u(desire.x) > 1000 || abs_u(desire.y) > 1000 || abs_u(
        desire.z,
    ) > 1000 {
        return Err(GeomError::Malformed);
    }
    let p0 = match depenetrate(capsule, start, obstacles) {
        Ok(p) => p,
        Err(e) => return Err(e),
    };
    let grounded = match support_at(capsule, p0, policy, obstacles) {
        Ok(s) => s.is_some(),
        Err(e) => return Err(e),
    };
    let ax = abs_u(desire.x);
    let ay = abs_u(desire.y);
    let az = abs_u(desire.z);
    let span = if ax > az {
        ax
    } else {
        az
    };
    let span = if span > ay {
        span
    } else {
        ay
    };
    let c = (span + 15) / 16;
    let count: i64 = if c < 1 {
        1
    } else if c > 64 {
        64
    } else {
        c as i64
    };
    assert(count == sweep_count(desire));
    let mut pose = p0;
    let mut previous = IVec3::zero();
    let mut i: i64 = 1;
    while i <= count
        invariant
            1 <= count <= 64,
            count == sweep_count(desire),
            1 <= i <= count + 1,
            character_query_ok(capsule, desire, policy, obstacles@.len() as int),
            spec_depenetrate(capsule, start, obstacles@) == Ok::<PoseMm, GeomError>(p0),
            spec_support_at(capsule, p0, policy, obstacles@) matches Ok(s0) && grounded == s0 is Some,
            obstacles_ok(obstacles@),
            capsule is Capsule,
            capsule.spec_well_formed(),
            policy.spec_is_valid(),
            -1000 <= desire.x <= 1000,
            -1000 <= desire.y <= 1000,
            -1000 <= desire.z <= 1000,
            spec_clear(capsule, pose, obstacles@) == Ok::<bool, GeomError>(true),
            spec_sweep(capsule, policy, grounded, obstacles@, desire, count as int, 1, p0, IVec3 { x: 0, y: 0, z: 0 })
                == spec_sweep(capsule, policy, grounded, obstacles@, desire, count as int, i as int, pose, previous),
        decreases count + 1 - i,
    {
        let (p, part) = match sweep_step(capsule, policy, grounded, obstacles, desire, count, i, pose, previous) {
            Err(e) => return Err(e),
            Ok(v) => v,
        };
        pose = p;
        previous = part;
        i = i + 1;
    }
    if grounded && desire.y <= 0 {
        pose = match descend(capsule, pose, policy.step_mm + CONTACT_SLOP_MM, obstacles) {
            Ok(p) => p,
            Err(e) => return Err(e),
        };
    }
    let support = match support_at(capsule, pose, policy, obstacles) {
        Ok(s) => s,
        Err(e) => return Err(e),
    };
    Ok(CharacterResolution { pose, support })
}

/// An airborne shape never takes the step path: each interval ends at the
/// plain move, at the plain move raised by at most 32 mm (a slope lift), or
/// where it began.
pub proof fn lemma_airborne_interval_never_steps(
    capsule: Shape,
    policy: CharacterPhysics,
    obstacles: Seq<CharacterObstacle>,
    pose: PoseMm,
    delta: IVec3,
)
    ensures
        spec_interval(capsule, policy, false, obstacles, pose, delta) matches Ok(p) ==> {
            let next = spec_translate(pose, delta);
            ||| p == pose
            ||| p == next
            ||| (p == PoseMm { y: p.y, ..next } && next.y.0 <= p.y.0 <= next.y.0 + 32)
        },
{
    reveal(spec_interval);
}

/// A grounded shape whose plain move is blocked, and which gets no slope
/// lift, climbs: when nothing it runs into stands higher than a step above
/// its foot, the path up by the step height and then across is clear, and
/// it settles, within a step of its old height, on support, the interval
/// ends at that landing.
pub proof fn lemma_grounded_interval_steps(
    capsule: Shape,
    policy: CharacterPhysics,
    obstacles: Seq<CharacterObstacle>,
    pose: PoseMm,
    delta: IVec3,
    landed: PoseMm,
)
    requires
        policy.step_mm > 0,
        delta.x != 0 || delta.z != 0,
        spec_clear_path(capsule, pose, spec_translate(pose, delta), obstacles) == Ok::<bool, GeomError>(false),
        lift_fold(capsule, spec_translate(pose, delta), policy, obstacles, obstacles.len()) matches Ok(
            (walkable, lift),
        ) && !(walkable && 0 < lift <= 32),
        !high_fold(capsule, pose, spec_translate(pose, delta), policy, obstacles, obstacles.len()),
        spec_clear_path(
            capsule,
            pose,
            spec_translate(pose, IVec3 { x: 0, y: policy.step_mm, z: 0 }),
            obstacles,
        ) == Ok::<bool, GeomError>(true),
        spec_clear_path(
            capsule,
            spec_translate(pose, IVec3 { x: 0, y: policy.step_mm, z: 0 }),
            spec_translate(
                spec_translate(pose, IVec3 { x: 0, y: policy.step_mm, z: 0 }),
                IVec3 { x: delta.x, y: 0, z: delta.z },
            ),
            obstacles,
        ) == Ok::<bool, GeomError>(true),
        spec_descend(
            capsule,
            spec_translate(
                spec_translate(pose, IVec3 { x: 0, y: policy.step_mm, z: 0 }),
                IVec3 { x: delta.x, y: 0, z: delta.z },
            ),
            policy.step_mm as int,
            obstacles,
        ) == Ok::<PoseMm, GeomError>(landed),
        spec_support_at(capsule, landed, policy, obstacles) matches Ok(Some(_)),
        landed.y.0 - pose.y.0 <= policy.step_mm,
    ensures
        spec_interval(capsule, policy, true, obstacles, pose, delta) == Ok::<PoseMm, GeomError>(landed),
{
    reveal(spec_interval);
}

} // verus!

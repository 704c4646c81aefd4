//! Posed points and conservative world bounds of the collision primitives.
use vstd::prelude::*;

use crate::physics::PoseMm;
use crate::arith::{clamp_i64, clamp_int};
use crate::shape::{CompoundPart, GeomError, Shape, MAX_COMPOUND_PARTS, MAX_CONVEX_VERTICES};
use crate::space::{AabbMm, IVec3};
use crate::units::{Mm, YawMd};
use crate::yaw::{rotate, spec_rotate};

verus! {

/// `local` moved into the world by `pose`: rotate, then translate (wrapping).
pub open spec fn spec_posed(local: IVec3, pose: PoseMm) -> IVec3 {
    let t = pose.spec_translation();
    let r = spec_rotate(local, pose.yaw, pose.pitch, pose.roll);
    IVec3 { x: t.x.wrapping_add(r.x), y: t.y.wrapping_add(r.y), z: t.z.wrapping_add(r.z) }
}

/// Move a local point into the world.
pub fn posed_point(local: IVec3, pose: PoseMm) -> (r: IVec3)
    ensures
        r == spec_posed(local, pose),
{
    pose.translation().wrapping_add(rotate(local, pose.yaw, pose.pitch, pose.roll))
}

/// Pose of a compound child: the child translation posed by the parent, and
/// the attitudes added (wrapping).
pub open spec fn spec_compose(parent: PoseMm, local: PoseMm) -> PoseMm {
    let t = spec_posed(local.spec_translation(), parent);
    PoseMm {
        x: Mm(t.x),
        y: Mm(t.y),
        z: Mm(t.z),
        yaw: YawMd(parent.yaw.0.wrapping_add(local.yaw.0)),
        pitch: YawMd(parent.pitch.0.wrapping_add(local.pitch.0)),
        roll: YawMd(parent.roll.0.wrapping_add(local.roll.0)),
    }
}

/// Pose of a compound child.
pub fn compose_pose(parent: PoseMm, local: PoseMm) -> (r: PoseMm)
    ensures
        r == spec_compose(parent, local),
{
    let t = posed_point(local.translation(), parent);
    PoseMm {
        x: Mm(t.x),
        y: Mm(t.y),
        z: Mm(t.z),
        yaw: YawMd(parent.yaw.0.wrapping_add(local.yaw.0)),
        pitch: YawMd(parent.pitch.0.wrapping_add(local.pitch.0)),
        roll: YawMd(parent.roll.0.wrapping_add(local.roll.0)),
    }
}

/// Component-wise minimum of a non-empty sequence of points.
pub open spec fn fold_min(s: Seq<IVec3>) -> IVec3
    decreases s.len(),
{
    if s.len() <= 1 {
        s[0]
    } else {
        fold_min(s.drop_last()).spec_min(s.last())
    }
}

/// Component-wise maximum of a non-empty sequence of points.
pub open spec fn fold_max(s: Seq<IVec3>) -> IVec3
    decreases s.len(),
{
    if s.len() <= 1 {
        s[0]
    } else {
        fold_max(s.drop_last()).spec_max(s.last())
    }
}

/// Tight box around a non-empty sequence of points.
pub open spec fn points_box(s: Seq<IVec3>) -> AabbMm {
    AabbMm { min: fold_min(s), max: fold_max(s) }
}

/// Every point of `s` lies in `b`, and `b` is never empty.
pub proof fn lemma_points_box_covers(s: Seq<IVec3>, i: int)
    requires
        0 <= i < s.len(),
    ensures
        points_box(s).spec_contains(s[i]),
    decreases s.len(),
{
    if s.len() > 1 {
        if i < s.len() - 1 {
            lemma_points_box_covers(s.drop_last(), i);
            assert(s.drop_last()[i] == s[i]);
        } else {
            lemma_points_box_covers(s.drop_last(), 0);
        }
    }
}

/// Each point of a box-corner sequence posed by `pose`, in the same order.
pub open spec fn posed_seq(s: Seq<IVec3>, pose: PoseMm) -> Seq<IVec3> {
    Seq::new(s.len(), |i: int| spec_posed(s[i], pose))
}

/// The eight posed corners of a local box, `x` slowest and `z` fastest.
pub open spec fn posed_corners(local: AabbMm, pose: PoseMm) -> Seq<IVec3> {
    posed_seq(crate::shape::box_corner_seq(local), pose)
}

/// The eight posed corners of a local box.
pub fn corners(local: AabbMm, pose: PoseMm) -> (r: [IVec3; 8])
    ensures
        r@ == posed_corners(local, pose),
{
    let r = [
        posed_point(IVec3 { x: local.min.x, y: local.min.y, z: local.min.z }, pose),
        posed_point(IVec3 { x: local.min.x, y: local.min.y, z: local.max.z }, pose),
        posed_point(IVec3 { x: local.min.x, y: local.max.y, z: local.min.z }, pose),
        posed_point(IVec3 { x: local.min.x, y: local.max.y, z: local.max.z }, pose),
        posed_point(IVec3 { x: local.max.x, y: local.min.y, z: local.min.z }, pose),
        posed_point(IVec3 { x: local.max.x, y: local.min.y, z: local.max.z }, pose),
        posed_point(IVec3 { x: local.max.x, y: local.max.y, z: local.min.z }, pose),
        posed_point(IVec3 { x: local.max.x, y: local.max.y, z: local.max.z }, pose),
    ];
    assert(r@ =~= posed_corners(local, pose));
    r
}

/// Tight box around a non-empty slice of points.
pub fn points_bounds(points: &[IVec3]) -> (r: AabbMm)
    requires
        points@.len() >= 1,
    ensures
        r == points_box(points@),
{
    let mut min = points[0];
    let mut max = points[0];
    let mut i: usize = 1;
    while i < points.len()
        invariant
            1 <= i <= points@.len(),
            min == fold_min(points@.take(i as int)),
            max == fold_max(points@.take(i as int)),
        decreases points@.len() - i,
    {
        assert(points@.take(i as int + 1).drop_last() =~= points@.take(i as int));
        min = min.min(points[i]);
        max = max.max(points[i]);
        i = i + 1;
    }
    assert(points@.take(i as int) =~= points@);
    AabbMm::new(min, max)
}

/// World box of an oriented box: the tight box around its posed corners.
pub open spec fn spec_obb_bounds(local: AabbMm, pose: PoseMm) -> AabbMm {
    points_box(posed_corners(local, pose))
}

fn obb_bounds(local: AabbMm, pose: PoseMm) -> (r: AabbMm)
    ensures
        r == spec_obb_bounds(local, pose),
{
    let cs = corners(local, pose);
    points_bounds(&cs)
}

/// Box of a sphere about a world centre, saturating at the `i32` range.
pub open spec fn sphere_box(c: IVec3, r: i32) -> AabbMm {
    AabbMm {
        min: IVec3 { x: sat32(c.x - r), y: sat32(c.y - r), z: sat32(c.z - r) },
        max: IVec3 { x: sat32(c.x + r), y: sat32(c.y + r), z: sat32(c.z + r) },
    }
}

/// `x` saturated to the `i32` range.
pub open spec fn sat32(x: int) -> i32 {
    clamp_int(x, i32::MIN as int, i32::MAX as int) as i32
}

/// `a + b` saturating at the `i32` range.
pub fn sat_add(a: i32, b: i32) -> (r: i32)
    ensures
        r == sat32(a + b),
{
    clamp_i64(a as i64 + b as i64, i32::MIN as i64, i32::MAX as i64) as i32
}

/// `a - b` saturating at the `i32` range.
pub fn sat_sub(a: i32, b: i32) -> (r: i32)
    ensures
        r == sat32(a - b),
{
    clamp_i64(a as i64 - b as i64, i32::MIN as i64, i32::MAX as i64) as i32
}

/// World end points of a capsule segment: local centre minus and plus the
/// half-height along local Y.
pub open spec fn spec_capsule_ends(center: IVec3, half_height: i32, pose: PoseMm) -> (
    IVec3,
    IVec3,
) {
    (
        spec_posed(IVec3 { x: center.x, y: center.y.wrapping_sub(half_height), z: center.z }, pose),
        spec_posed(IVec3 { x: center.x, y: center.y.wrapping_add(half_height), z: center.z }, pose),
    )
}

/// World end points of a capsule segment.
pub fn capsule_ends(center: IVec3, half_height: i32, pose: PoseMm) -> (r: (IVec3, IVec3))
    ensures
        r == spec_capsule_ends(center, half_height, pose),
{
    (
        posed_point(
            IVec3 { x: center.x, y: center.y.wrapping_sub(half_height), z: center.z },
            pose,
        ),
        posed_point(
            IVec3 { x: center.x, y: center.y.wrapping_add(half_height), z: center.z },
            pose,
        ),
    )
}

/// Box of a capsule: its segment box padded by the radius.
pub open spec fn capsule_box(p0: IVec3, p1: IVec3, r: i32) -> AabbMm {
    let lo = p0.spec_min(p1);
    let hi = p0.spec_max(p1);
    AabbMm {
        min: IVec3 { x: lo.x.wrapping_sub(r), y: lo.y.wrapping_sub(r), z: lo.z.wrapping_sub(r) },
        max: IVec3 { x: hi.x.wrapping_add(r), y: hi.y.wrapping_add(r), z: hi.z.wrapping_add(r) },
    }
}

/// The live vertices of a convex hull, posed.
pub open spec fn convex_world(vertices: [IVec3; MAX_CONVEX_VERTICES], len: u8, pose: PoseMm) -> Seq<
    IVec3,
> {
    posed_seq(vertices@.take(len as int), pose)
}

/// A convex hull has between 4 and 16 live vertices.
pub open spec fn convex_len_ok(len: u8) -> bool {
    4 <= len <= MAX_CONVEX_VERTICES
}

/// Conservative world box of a non-compound shape.
#[verifier::opaque]
pub open spec fn spec_primitive_bounds(shape: Shape, pose: PoseMm) -> Result<AabbMm, GeomError> {
    match shape {
        Shape::OrientedBox { local } => Ok(spec_obb_bounds(local, pose)),
        Shape::Sphere { local_center, radius_mm } => Ok(
            sphere_box(spec_posed(local_center, pose), radius_mm),
        ),
        Shape::Capsule { local_center, radius_mm, half_height_mm } => {
            let (p0, p1) = spec_capsule_ends(local_center, half_height_mm, pose);
            Ok(capsule_box(p0, p1, radius_mm))
        },
        Shape::Convex { vertices, len } => if convex_len_ok(len) {
            Ok(points_box(convex_world(vertices, len, pose)))
        } else {
            Err(GeomError::Malformed)
        },
        Shape::Compound { .. } => Err(GeomError::Unsupported),
    }
}

/// Box of compound child `i` under the compound pose.
pub open spec fn child_bounds(parts: Seq<CompoundPart>, pose: PoseMm, i: int) -> Result<AabbMm, GeomError> {
    spec_primitive_bounds(parts[i].shape.spec_as_shape(), spec_compose(pose, parts[i].local_pose))
}

/// Union of the child boxes of the first `n` compound children. Any child
/// failure fails the whole.
pub open spec fn parts_bounds(parts: Seq<CompoundPart>, pose: PoseMm, n: nat) -> Result<
    AabbMm,
    GeomError,
>
    decreases n,
{
    if n <= 1 {
        child_bounds(parts, pose, 0)
    } else {
        match parts_bounds(parts, pose, (n - 1) as nat) {
            Ok(a) => match child_bounds(parts, pose, n - 1) {
                Ok(b) => Ok(a.spec_union(b)),
                Err(e) => Err(e),
            },
            Err(e) => Err(e),
        }
    }
}

/// Once a child fails, every longer prefix fails the same way.
pub proof fn lemma_parts_bounds_err(parts: Seq<CompoundPart>, pose: PoseMm, k: nat, m: nat)
    requires
        1 <= k <= m,
        parts_bounds(parts, pose, k) is Err,
    ensures
        parts_bounds(parts, pose, m) == parts_bounds(parts, pose, k),
    decreases m,
{
    if m > k {
        lemma_parts_bounds_err(parts, pose, k, (m - 1) as nat);
    }
}

/// Number of compound children a query walks.
pub open spec fn live_parts(len: u8) -> nat {
    if len > MAX_COMPOUND_PARTS {
        MAX_COMPOUND_PARTS as nat
    } else {
        len as nat
    }
}

/// Conservative world AABB of `shape` at `pose`.
pub open spec fn spec_bounds(shape: Shape, pose: PoseMm) -> Result<AabbMm, GeomError> {
    match shape {
        Shape::Compound { parts, len } => if len == 0 {
            Err(GeomError::Malformed)
        } else {
            match parts_bounds(parts@, pose, live_parts(len)) {
                Ok(b) => if b.spec_is_empty() {
                    Err(GeomError::Malformed)
                } else {
                    Ok(b)
                },
                Err(e) => Err(e),
            }
        },
        _ => spec_primitive_bounds(shape, pose),
    }
}

fn primitive_bounds(shape: Shape, pose: PoseMm) -> (r: Result<AabbMm, GeomError>)
    ensures
        r == spec_primitive_bounds(shape, pose),
{
    reveal(spec_primitive_bounds);
    match shape {
        Shape::OrientedBox { local } => Ok(obb_bounds(local, pose)),
        Shape::Sphere { local_center, radius_mm } => {
            let c = posed_point(local_center, pose);
            Ok(
                AabbMm::new(
                    IVec3 {
                        x: sat_sub(c.x, radius_mm),
                        y: sat_sub(c.y, radius_mm),
                        z: sat_sub(c.z, radius_mm),
                    },
                    IVec3 {
                        x: sat_add(c.x, radius_mm),
                        y: sat_add(c.y, radius_mm),
                        z: sat_add(c.z, radius_mm),
                    },
                ),
            )
        },
        Shape::Capsule { local_center, radius_mm, half_height_mm } => {
            let (p0, p1) = capsule_ends(local_center, half_height_mm, pose);
            let a = AabbMm::from_point(p0).union(AabbMm::from_point(p1));
            let pad = IVec3 { x: radius_mm, y: radius_mm, z: radius_mm };
            Ok(AabbMm::new(a.min.wrapping_sub(pad), a.max.wrapping_add(pad)))
        },
        Shape::Convex { vertices, len } => {
            if len < 4 || len as usize > MAX_CONVEX_VERTICES {
                return Err(GeomError::Malformed);
            }
            let pts = convex_points(&vertices, len, pose);
            Ok(points_bounds(pts.as_slice()))
        },
        Shape::Compound { .. } => Err(GeomError::Unsupported),
    }
}

/// The live vertices of a convex hull, posed, in storage order.
pub fn convex_points(vertices: &[IVec3; MAX_CONVEX_VERTICES], len: u8, pose: PoseMm) -> (r: Vec<
    IVec3,
>)
    requires
        convex_len_ok(len),
    ensures
        r@ == convex_world(*vertices, len, pose),
{
    let mut out: Vec<IVec3> = Vec::new();
    let n = len as usize;
    let mut i: usize = 0;
    while i < n
        invariant
            n == len,
            n <= MAX_CONVEX_VERTICES,
            0 <= i <= n,
            out@.len() == i,
            forall|j: int| 0 <= j < i ==> out@[j] == spec_posed(vertices@[j], pose),
        decreases n - i,
    {
        out.push(posed_point(vertices[i], pose));
        i = i + 1;
    }
    assert(out@ =~= convex_world(*vertices, len, pose));
    out
}

/// Conservative world AABB of `shape` at `pose`.
#[verifier::rlimit(50)]
pub fn bounds(shape: Shape, pose: PoseMm) -> (r: Result<AabbMm, GeomError>)
    ensures
        r == spec_bounds(shape, pose),
{
    match shape {
        Shape::Compound { parts, len } => {
            if len == 0 {
                return Err(GeomError::Malformed);
            }
            let n: usize = if len as usize > MAX_COMPOUND_PARTS {
                MAX_COMPOUND_PARTS
            } else {
                len as usize
            };
            let first = parts[0];
            let mut out = match primitive_bounds(
                first.shape.as_shape(),
                compose_pose(pose, first.local_pose),
            ) {
                Ok(b) => b,
                Err(e) => {
                    proof {
                        lemma_parts_bounds_err(parts@, pose, 1, n as nat);
                    }
                    return Err(e);
                },
            };
            let mut i: usize = 1;
            while i < n
                invariant
                    1 <= i <= n,
                    shape == (Shape::Compound { parts, len }),
                    n == live_parts(len),
                    len >= 1,
                    parts_bounds(parts@, pose, i as nat) == Ok::<AabbMm, GeomError>(out),
                decreases n - i,
            {
                let part = parts[i];
                let child = compose_pose(pose, part.local_pose);
                match primitive_bounds(part.shape.as_shape(), child) {
                    Ok(b) => {
                        out = out.union(b);
                    },
                    Err(e) => {
                        proof {
                            assert(child_bounds(parts@, pose, i as int) == Err::<AabbMm, GeomError>(e));
                            assert(parts_bounds(parts@, pose, (i + 1) as nat) == Err::<
                                AabbMm,
                                GeomError,
                            >(e));
                            lemma_parts_bounds_err(parts@, pose, (i + 1) as nat, n as nat);
                        }
                        return Err(e);
                    },
                }
                i = i + 1;
            }
            if out.is_empty() {
                Err(GeomError::Malformed)
            } else {
                Ok(out)
            }
        },
        _ => primitive_bounds(shape, pose),
    }
}

} // verus!

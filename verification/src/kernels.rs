//! Closest-point kernels of spheres and capsules against boxes, segments and
//! each other.
use vstd::prelude::*;

use crate::arith::{abs_int, clamp_i64, clamp_int, div_trunc, dot, dot_wide, isqrt,
    lemma_dot_self_range, lemma_i32_product, spec_isqrt, tdiv, is_root};
use crate::narrow::{diff, midpoint, neg, pack_normal, spec_midpoint, spec_pack_normal, wneg, wsub};
use crate::physics::{PoseMm, QuantizedContact};
use crate::query::{capsule_ends, posed_point, spec_capsule_ends, spec_posed};
use crate::shape::Shape;
use crate::space::{AabbMm, IVec3};
use crate::yaw::{rotation_axes, spec_rotation_axes};

verus! {

/// One 16.16 axis coordinate: floor of `v . a / 2^16`, truncated to `i32`.
pub open spec fn axis_coord(v: IVec3, a: IVec3) -> i32 {
    (dot(v, a) / 65536) as i32
}

/// A world point in the frame of `pose`: the offset from the pose origin
/// projected onto each rotated axis.
pub open spec fn spec_to_local(world: IVec3, pose: PoseMm) -> IVec3 {
    let d = wsub(world, pose.spec_translation());
    let (ax, ay, az) = spec_rotation_axes(pose.yaw, pose.pitch, pose.roll);
    IVec3 { x: axis_coord(d, ax), y: axis_coord(d, ay), z: axis_coord(d, az) }
}

fn axis_coord_exec(v: IVec3, a: IVec3) -> (r: i32)
    ensures
        r == axis_coord(v, a),
{
    crate::arith::floor_fx(dot_wide(v, a)) as i32
}

/// A world point in the frame of `pose`.
pub fn to_local(world: IVec3, pose: PoseMm) -> (r: IVec3)
    ensures
        r == spec_to_local(world, pose),
{
    let d = world.wrapping_sub(pose.translation());
    let (ax, ay, az) = rotation_axes(pose.yaw, pose.pitch, pose.roll);
    IVec3 { x: axis_coord_exec(d, ax), y: axis_coord_exec(d, ay), z: axis_coord_exec(d, az) }
}

/// Distance from a local coordinate to the nearer of two box faces.
pub open spec fn face_gap(l: int, lo: int, hi: int) -> int {
    let a = abs_int(l - lo);
    let b = abs_int(hi - l);
    if a < b {
        a
    } else {
        b
    }
}

fn face_gap_exec(l: i32, lo: i32, hi: i32) -> (r: i64)
    ensures
        r == face_gap(l as int, lo as int, hi as int),
        0 <= r <= 0x1_0000_0000,
{
    let a0 = l as i64 - lo as i64;
    let b0 = hi as i64 - l as i64;
    let a = if a0 < 0 {
        -a0
    } else {
        a0
    };
    let b = if b0 < 0 {
        -b0
    } else {
        b0
    };
    if a < b {
        a
    } else {
        b
    }
}

/// Depth of a local point below the nearest face of a box.
pub open spec fn spec_inward_depth(world: IVec3, local: AabbMm, pose: PoseMm) -> int {
    let l = spec_to_local(world, pose);
    let dx = face_gap(l.x as int, local.min.x as int, local.max.x as int);
    let dy = face_gap(l.y as int, local.min.y as int, local.max.y as int);
    let dz = face_gap(l.z as int, local.min.z as int, local.max.z as int);
    let m = if dx < dy {
        dx
    } else {
        dy
    };
    if m < dz {
        m
    } else {
        dz
    }
}

fn inward_depth(world: IVec3, local: AabbMm, pose: PoseMm) -> (r: i64)
    ensures
        r == spec_inward_depth(world, local, pose),
        0 <= r <= 0x1_0000_0000,
{
    let l = to_local(world, pose);
    let dx = face_gap_exec(l.x, local.min.x, local.max.x);
    let dy = face_gap_exec(l.y, local.min.y, local.max.y);
    let dz = face_gap_exec(l.z, local.min.z, local.max.z);
    let m = if dx < dy {
        dx
    } else {
        dy
    };
    if m < dz {
        m
    } else {
        dz
    }
}

/// Outward axis of the box face nearest to a local point (ties prefer X,
/// then Y; a centred point picks the positive face).
pub open spec fn spec_nearest_face_axis(
    l: IVec3,
    local: AabbMm,
    ax: IVec3,
    ay: IVec3,
    az: IVec3,
) -> IVec3 {
    let dx = face_gap(l.x as int, local.min.x as int, local.max.x as int);
    let dy = face_gap(l.y as int, local.min.y as int, local.max.y as int);
    let dz = face_gap(l.z as int, local.min.z as int, local.max.z as int);
    if dx <= dy && dx <= dz {
        if l.x - local.min.x < local.max.x - l.x {
            wneg(ax)
        } else {
            ax
        }
    } else if dy <= dz {
        if l.y - local.min.y < local.max.y - l.y {
            wneg(ay)
        } else {
            ay
        }
    } else if l.z - local.min.z < local.max.z - l.z {
        wneg(az)
    } else {
        az
    }
}

fn nearest_face_axis(l: IVec3, local: AabbMm, ax: IVec3, ay: IVec3, az: IVec3) -> (r: IVec3)
    ensures
        r == spec_nearest_face_axis(l, local, ax, ay, az),
{
    let dx = face_gap_exec(l.x, local.min.x, local.max.x);
    let dy = face_gap_exec(l.y, local.min.y, local.max.y);
    let dz = face_gap_exec(l.z, local.min.z, local.max.z);
    if dx <= dy && dx <= dz {
        if (l.x as i64) - (local.min.x as i64) < (local.max.x as i64) - (l.x as i64) {
            neg(ax)
        } else {
            ax
        }
    } else if dy <= dz {
        if (l.y as i64) - (local.min.y as i64) < (local.max.y as i64) - (l.y as i64) {
            neg(ay)
        } else {
            ay
        }
    } else if (l.z as i64) - (local.min.z as i64) < (local.max.z as i64) - (l.z as i64) {
        neg(az)
    } else {
        az
    }
}

/// The point of a posed box nearest to `world` (clamped in the box frame),
/// whether `world` is inside, and the outward axis of the nearest face.
pub open spec fn spec_closest_on_obb(world: IVec3, local: AabbMm, pose: PoseMm) -> (
    IVec3,
    bool,
    IVec3,
) {
    let l = spec_to_local(world, pose);
    let c = IVec3 {
        x: clamp_int(l.x as int, local.min.x as int, local.max.x as int) as i32,
        y: clamp_int(l.y as int, local.min.y as int, local.max.y as int) as i32,
        z: clamp_int(l.z as int, local.min.z as int, local.max.z as int) as i32,
    };
    let (ax, ay, az) = spec_rotation_axes(pose.yaw, pose.pitch, pose.roll);
    (spec_posed(c, pose), c == l, spec_nearest_face_axis(l, local, ax, ay, az))
}

fn clamp_i32(x: i32, lo: i32, hi: i32) -> (r: i32)
    requires
        lo <= hi,
    ensures
        r == clamp_int(x as int, lo as int, hi as int),
{
    if x < lo {
        lo
    } else if x > hi {
        hi
    } else {
        x
    }
}

/// Closest point of a posed box to a world point.
pub fn closest_on_obb(world: IVec3, local: AabbMm, pose: PoseMm) -> (r: (IVec3, bool, IVec3))
    requires
        !local.spec_is_empty(),
    ensures
        r == spec_closest_on_obb(world, local, pose),
{
    let l = to_local(world, pose);
    let c = IVec3 {
        x: clamp_i32(l.x, local.min.x, local.max.x),
        y: clamp_i32(l.y, local.min.y, local.max.y),
        z: clamp_i32(l.z, local.min.z, local.max.z),
    };
    let inside = c.x == l.x && c.y == l.y && c.z == l.z;
    let closest = posed_point(c, pose);
    let (ax, ay, az) = rotation_axes(pose.yaw, pose.pitch, pose.roll);
    let inward = nearest_face_axis(l, local, ax, ay, az);
    (closest, inside, inward)
}

/// 16.16 unit direction of `d`, whose integer length is `dist`; straight up
/// when `dist` is zero.
pub open spec fn unit_dir(d: IVec3, dist: int) -> IVec3 {
    if dist == 0 {
        IVec3 { x: 0, y: 65536, z: 0 }
    } else {
        IVec3 {
            x: tdiv(d.x * 65536, dist) as i32,
            y: tdiv(d.y * 65536, dist) as i32,
            z: tdiv(d.z * 65536, dist) as i32,
        }
    }
}

fn unit_dir_exec(d: IVec3, dist: i64) -> (r: IVec3)
    requires
        0 <= dist,
    ensures
        r == unit_dir(d, dist as int),
{
    if dist == 0 {
        return IVec3 { x: 0, y: 65536, z: 0 };
    }
    IVec3 {
        x: div_trunc((d.x as i64) * 65536, dist) as i32,
        y: div_trunc((d.y as i64) * 65536, dist) as i32,
        z: div_trunc((d.z as i64) * 65536, dist) as i32,
    }
}

/// Contact of two balls about world centres: `None` when the centre distance
/// exceeds the summed radius (saturated to `i32`).
pub open spec fn spec_sphere_points(wa: IVec3, ra: i32, wb: IVec3, rb: i32, feature: u16) -> Option<
    QuantizedContact,
> {
    let d = wsub(wa, wb);
    let dist2 = dot(d, d);
    let limit = crate::query::sat32(ra + rb) as int;
    if dist2 > limit * limit {
        None
    } else {
        let dist = spec_isqrt(dist2);
        Some(
            QuantizedContact {
                point: spec_midpoint(wa, wb),
                normal: spec_pack_normal(unit_dir(d, dist), 1),
                depth_mm: clamp_int(limit - dist, 0, i32::MAX as int) as i32,
                feature,
            },
        )
    }
}

/// Contact of two balls about world centres.
pub fn sphere_points(wa: IVec3, ra: i32, wb: IVec3, rb: i32, feature: u16) -> (r: Option<
    QuantizedContact,
>)
    ensures
        r == spec_sphere_points(wa, ra, wb, rb, feature),
{
    let d = wa.wrapping_sub(wb);
    proof {
        lemma_dot_self_range(d);
    }
    let dist2 = dot_wide(d, d);
    let limit = crate::query::sat_add(ra, rb) as i64;
    proof {
        lemma_i32_product(limit as int, limit as int);
    }
    if dist2 > (limit * limit) as i128 {
        return None;
    }
    let dist = isqrt(dist2);
    let depth = clamp_i64(limit - dist, 0, i32::MAX as i64) as i32;
    let n = unit_dir_exec(d, dist);
    Some(
        QuantizedContact {
            point: midpoint(wa, wb),
            normal: pack_normal(n, 1),
            depth_mm: depth,
            feature,
        },
    )
}

/// Contact of a ball about world centre `c` with a posed box. Inside the box
/// the depth is the radius plus the distance to the nearest face, along that
/// face's axis; outside it is the radius minus the distance to the box.
/// `flip` reverses the normal and marks feature 1.
pub open spec fn spec_sphere_obb_at(
    c: IVec3,
    radius: i32,
    local: AabbMm,
    pb: PoseMm,
    flip: bool,
) -> Option<QuantizedContact> {
    let (closest, inside, inward) = spec_closest_on_obb(c, local, pb);
    let d = wsub(c, closest);
    let dist2 = dot(d, d);
    let sign = if flip {
        -1int
    } else {
        1int
    };
    if !inside && dist2 > radius * radius {
        None
    } else if inside {
        Some(
            QuantizedContact {
                point: closest,
                normal: spec_pack_normal(inward, sign),
                depth_mm: crate::query::sat32(radius + spec_inward_depth(c, local, pb)),
                feature: if flip {
                    1u16
                } else {
                    0u16
                },
            },
        )
    } else {
        let dist = spec_isqrt(dist2);
        Some(
            QuantizedContact {
                point: closest,
                normal: spec_pack_normal(unit_dir(d, dist), sign),
                depth_mm: clamp_int(radius - dist, 0, i32::MAX as int) as i32,
                feature: if flip {
                    1u16
                } else {
                    0u16
                },
            },
        )
    }
}

/// Contact of a ball about a world centre with a posed box.
pub fn sphere_obb_at(c: IVec3, radius: i32, local: AabbMm, pb: PoseMm, flip: bool) -> (r: Option<
    QuantizedContact,
>)
    requires
        !local.spec_is_empty(),
    ensures
        r == spec_sphere_obb_at(c, radius, local, pb, flip),
{
    let (closest, inside, inward) = closest_on_obb(c, local, pb);
    let d = c.wrapping_sub(closest);
    proof {
        lemma_dot_self_range(d);
        lemma_i32_product(radius as int, radius as int);
    }
    let dist2 = dot_wide(d, d);
    let sign: i64 = if flip {
        -1
    } else {
        1
    };
    let feature: u16 = if flip {
        1
    } else {
        0
    };
    if !inside && dist2 > ((radius as i64) * (radius as i64)) as i128 {
        return None;
    }
    if inside {
        let deep = inward_depth(c, local, pb);
        let depth = clamp_i64(deep + radius as i64, i32::MIN as i64, i32::MAX as i64) as i32;
        Some(
            QuantizedContact {
                point: closest,
                normal: pack_normal(inward, sign),
                depth_mm: depth,
                feature,
            },
        )
    } else {
        let dist = isqrt(dist2);
        Some(
            QuantizedContact {
                point: closest,
                normal: pack_normal(unit_dir_exec(d, dist), sign),
                depth_mm: clamp_i64(radius as i64 - dist, 0, i32::MAX as i64) as i32,
                feature,
            },
        )
    }
}

/// Sample `i` of 8 along the segment `p0 -> p1` (truncated eighths).
pub open spec fn seg_point(p0: IVec3, p1: IVec3, i: int) -> IVec3 {
    IVec3 {
        x: (p0.x + tdiv((p1.x - p0.x) * i, 8)) as i32,
        y: (p0.y + tdiv((p1.y - p0.y) * i, 8)) as i32,
        z: (p0.z + tdiv((p1.z - p0.z) * i, 8)) as i32,
    }
}

fn seg_coord(a: i32, b: i32, i: i64) -> (r: i32)
    requires
        0 <= i <= 8,
    ensures
        r == (a + tdiv((b - a) * i, 8)) as i32,
{
    let d = (b as i64) - (a as i64);
    proof {
        assert(-0x8_0000_0000 <= d * i <= 0x8_0000_0000) by (nonlinear_arith)
            requires
                -0x1_0000_0000 <= d <= 0x1_0000_0000,
                0 <= i <= 8,
        {
        }
    }
    let q = div_trunc(d * i, 8);
    proof {
        assert(-0x1_0000_0000 <= q <= 0x1_0000_0000);
    }
    ((a as i64) + q) as i32
}

fn seg_point_exec(p0: IVec3, p1: IVec3, i: i64) -> (r: IVec3)
    requires
        0 <= i <= 8,
    ensures
        r == seg_point(p0, p1, i as int),
{
    IVec3 { x: seg_coord(p0.x, p1.x, i), y: seg_coord(p0.y, p1.y, i), z: seg_coord(p0.z, p1.z, i) }
}

/// Squared distance from a segment sample to a posed box.
pub open spec fn obb_gap2(p: IVec3, local: AabbMm, pose: PoseMm) -> int {
    let c = spec_closest_on_obb(p, local, pose).0;
    dot(wsub(p, c), wsub(p, c))
}

/// Best of the first `k` of the nine segment samples against a box: the first
/// sample with the smallest squared gap, starting from `p0` at `i64::MAX`.
pub open spec fn seg_obb_fold(p0: IVec3, p1: IVec3, local: AabbMm, pose: PoseMm, k: nat) -> (
    IVec3,
    int,
)
    decreases k,
{
    if k == 0 {
        (p0, i64::MAX as int)
    } else {
        let prev = seg_obb_fold(p0, p1, local, pose, (k - 1) as nat);
        let p = seg_point(p0, p1, k - 1);
        let d = obb_gap2(p, local, pose);
        if d < prev.1 {
            (p, d)
        } else {
            prev
        }
    }
}

/// Segment sample nearest to a posed box (nine samples).
pub fn closest_aabb_to_segment(p0: IVec3, p1: IVec3, local: AabbMm, pose: PoseMm) -> (r: IVec3)
    requires
        !local.spec_is_empty(),
    ensures
        r == seg_obb_fold(p0, p1, local, pose, 9).0,
{
    let mut best = p0;
    let mut best_d: i128 = i64::MAX as i128;
    let mut i: i64 = 0;
    while i <= 8
        invariant
            0 <= i <= 9,
            !local.spec_is_empty(),
            (best, best_d as int) == seg_obb_fold(p0, p1, local, pose, i as nat),
        decreases 9 - i,
    {
        let p = seg_point_exec(p0, p1, i);
        let (c, _, _) = closest_on_obb(p, local, pose);
        let g = p.wrapping_sub(c);
        let d = dot_wide(g, g);
        if d < best_d {
            best_d = d;
            best = p;
        }
        i = i + 1;
    }
    best
}

/// Contact of a capsule with a posed box: a ball of the capsule radius at the
/// segment sample nearest to the box.
pub open spec fn spec_capsule_obb(
    center: IVec3,
    radius: i32,
    half_height: i32,
    pc: PoseMm,
    local: AabbMm,
    pb: PoseMm,
    flip: bool,
) -> Option<QuantizedContact> {
    let (p0, p1) = spec_capsule_ends(center, half_height, pc);
    let q = seg_obb_fold(p0, p1, local, pb, 9).0;
    spec_sphere_obb_at(q, radius, local, pb, flip)
}

/// Contact of a capsule with a posed box.
pub fn capsule_obb(
    center: IVec3,
    radius: i32,
    half_height: i32,
    pc: PoseMm,
    local: AabbMm,
    pb: PoseMm,
    flip: bool,
) -> (r: Option<QuantizedContact>)
    requires
        !local.spec_is_empty(),
    ensures
        r == spec_capsule_obb(center, radius, half_height, pc, local, pb, flip),
{
    let (p0, p1) = capsule_ends(center, half_height, pc);
    let q = closest_aabb_to_segment(p0, p1, local, pb);
    sphere_obb_at(q, radius, local, pb, flip)
}

/// Point of the segment `a -> b` nearest to `p`, by the clamped projection
/// parameter (truncated). A degenerate segment yields `a`.
pub open spec fn spec_closest_on_segment(p: IVec3, a: IVec3, b: IVec3) -> IVec3 {
    let ab = wsub(b, a);
    let ap = wsub(p, a);
    let den = dot(ab, ab);
    if den <= 0 {
        a
    } else {
        let t = clamp_int(dot(ap, ab), 0, den);
        IVec3 {
            x: a.x.wrapping_add(tdiv(ab.x * t, den) as i32),
            y: a.y.wrapping_add(tdiv(ab.y * t, den) as i32),
            z: a.z.wrapping_add(tdiv(ab.z * t, den) as i32),
        }
    }
}

/// Truncating wide division for a positive divisor.
fn div_wide(x: i128, d: i128) -> (r: i128)
    requires
        d > 0,
        -0x1_0000_0000_0000_0000_0000_0000 <= x <= 0x1_0000_0000_0000_0000_0000_0000,
    ensures
        r == tdiv(x as int, d as int),
{
    if x >= 0 {
        let q: i128 = match x.checked_div_euclid(d) {
            Some(q) => q,
            None => 0,
        };
        proof {
            assert(0 <= x as int / d as int <= x) by (nonlinear_arith)
                requires
                    x >= 0,
                    d > 0,
            {
            }
        }
        q
    } else {
        let nx = -x;
        let q: i128 = match nx.checked_div_euclid(d) {
            Some(q) => q,
            None => 0,
        };
        proof {
            assert(0 <= nx as int / d as int <= nx) by (nonlinear_arith)
                requires
                    nx >= 0,
                    d > 0,
            {
            }
        }
        -q
    }
}

fn seg_offset(c: i32, t: i128, den: i128) -> (r: i32)
    requires
        0 <= t <= den,
        0 < den <= 0xC000_0000_0000_0000,
    ensures
        r == tdiv(c * t, den as int) as i32,
{
    proof {
        assert(-0x1_0000_0000_0000_0000_0000_0000 <= c * t <= 0x1_0000_0000_0000_0000_0000_0000)
            by (nonlinear_arith)
            requires
                i32::MIN <= c <= i32::MAX,
                0 <= t <= 0xC000_0000_0000_0000,
        {
        }
    }
    div_wide((c as i128) * t, den) as i32
}

/// Point of a segment nearest to `p`.
pub fn closest_on_segment(p: IVec3, a: IVec3, b: IVec3) -> (r: IVec3)
    ensures
        r == spec_closest_on_segment(p, a, b),
{
    let ab = b.wrapping_sub(a);
    let ap = p.wrapping_sub(a);
    let den = dot_wide(ab, ab);
    if den <= 0 {
        return a;
    }
    let raw = dot_wide(ap, ab);
    let t = if raw < 0 {
        0
    } else if raw > den {
        den
    } else {
        raw
    };
    IVec3 {
        x: a.x.wrapping_add(seg_offset(ab.x, t, den)),
        y: a.y.wrapping_add(seg_offset(ab.y, t, den)),
        z: a.z.wrapping_add(seg_offset(ab.z, t, den)),
    }
}

/// Contact of a ball with a capsule: two balls, the second at the capsule
/// point nearest the ball centre; feature 2. `flip` reverses the normal.
pub open spec fn spec_sphere_capsule(
    c: IVec3,
    rs: i32,
    center: IVec3,
    rc: i32,
    half_height: i32,
    pc: PoseMm,
    flip: bool,
) -> Option<QuantizedContact> {
    let (p0, p1) = spec_capsule_ends(center, half_height, pc);
    let q = spec_closest_on_segment(c, p0, p1);
    match spec_sphere_points(c, rs, q, rc, 2) {
        None => None,
        Some(h) => if flip {
            Some(QuantizedContact { normal: (-h.normal.0 as i16, -h.normal.1 as i16, -h.normal.2 as i16), ..h })
        } else {
            Some(h)
        },
    }
}

/// Contact of a ball about a world centre with a capsule.
pub fn sphere_capsule(
    c: IVec3,
    rs: i32,
    center: IVec3,
    rc: i32,
    half_height: i32,
    pc: PoseMm,
    flip: bool,
) -> (r: Option<QuantizedContact>)
    ensures
        r == spec_sphere_capsule(c, rs, center, rc, half_height, pc, flip),
{
    let (p0, p1) = capsule_ends(center, half_height, pc);
    let q = closest_on_segment(c, p0, p1);
    match sphere_points(c, rs, q, rc, 2) {
        None => None,
        Some(h) => {
            if flip {
                let (a, b, cz) = h.normal;
                proof {
                    lemma_pack_range(unit_dir(wsub(c, q), spec_isqrt(dot(wsub(c, q), wsub(c, q)))), 1);
                }
                Some(QuantizedContact { normal: (-a, -b, -cz), ..h })
            } else {
                Some(h)
            }
        },
    }
}

/// A ball whose centre stands level with some point of an upright capsule's
/// axis (zero attitude) touches the capsule exactly when its horizontal
/// distance to that axis is within the summed radii, and then goes in by the
/// summed radii less that (integer) distance, as feature 2: the nearest axis
/// point is the one level with the centre, not an end of the axis.
#[verifier::spinoff_prover]
pub proof fn lemma_ball_beside_upright_capsule(
    c: IVec3,
    rs: i32,
    center: IVec3,
    rc: i32,
    half_height: i32,
    pc: PoseMm,
    flip: bool,
)
    requires
        pc.yaw.0 == 0,
        pc.pitch.0 == 0,
        pc.roll.0 == 0,
        0 <= rs <= 0x10_0000,
        0 <= rc <= 0x10_0000,
        0 <= half_height <= 0x10_0000,
        -0x10_0000 <= pc.x.0 <= 0x10_0000,
        -0x10_0000 <= pc.y.0 <= 0x10_0000,
        -0x10_0000 <= pc.z.0 <= 0x10_0000,
        -0x10_0000 <= center.x <= 0x10_0000,
        -0x10_0000 <= center.y <= 0x10_0000,
        -0x10_0000 <= center.z <= 0x10_0000,
        -0x10_0000 <= c.x <= 0x10_0000,
        -0x10_0000 <= c.z <= 0x10_0000,
        pc.y.0 + center.y - half_height <= c.y <= pc.y.0 + center.y + half_height,
    ensures
        ({
            let dx = c.x - (pc.x.0 + center.x);
            let dz = c.z - (pc.z.0 + center.z);
            let h2 = dx * dx + dz * dz;
            let r = spec_sphere_capsule(c, rs, center, rc, half_height, pc, flip);
            &&& r is Some <==> h2 <= (rs + rc) * (rs + rc)
            &&& r is Some ==> r.unwrap().depth_mm + spec_isqrt(h2) == rs + rc && r.unwrap().feature == 2
        }),
{
    let dx = c.x - (pc.x.0 + center.x);
    let dz = c.z - (pc.z.0 + center.z);
    let h2 = dx * dx + dz * dz;
    let lo = IVec3 { x: center.x, y: center.y.wrapping_sub(half_height), z: center.z };
    let hi = IVec3 { x: center.x, y: center.y.wrapping_add(half_height), z: center.z };
    crate::yaw::lemma_rotate_xz_zero_is_identity(lo);
    crate::yaw::lemma_rotate_xz_zero_is_identity(hi);
    assert(pc.yaw == crate::units::YawMd(0));
    let (p0, p1) = spec_capsule_ends(center, half_height, pc);
    assert(p0.x == pc.x.0 + center.x && p0.y == pc.y.0 + center.y - half_height && p0.z == pc.z.0 + center.z);
    assert(p1.x == pc.x.0 + center.x && p1.y == pc.y.0 + center.y + half_height && p1.z == pc.z.0 + center.z);
    let q = spec_closest_on_segment(c, p0, p1);
    let ab = wsub(p1, p0);
    let ap = wsub(c, p0);
    let k: int = c.y - p0.y;
    assert(ab == IVec3 { x: 0, y: (2 * half_height) as i32, z: 0 });
    assert(ap == IVec3 { x: dx as i32, y: k as i32, z: dz as i32 });
    let hh2: int = 2 * half_height;
    assert(ab.x == 0 && ab.z == 0 && ab.y == hh2);
    assert(ap.y == k);
    let (abx, aby, abz, apx, apy, apz) = (ab.x as int, ab.y as int, ab.z as int, ap.x as int, ap.y as int, ap.z as int);
    assert(dot(ab, ab) == abx * abx + aby * aby + abz * abz);
    assert(dot(ap, ab) == apx * abx + apy * aby + apz * abz);
    assert(abx * abx + aby * aby + abz * abz == hh2 * hh2 && apx * abx + apy * aby + apz * abz == k * hh2)
        by (nonlinear_arith)
        requires
            abx == 0,
            abz == 0,
            aby == hh2,
            apy == k,
    {
    }
    if half_height == 0 {
        assert(q == p0);
    } else {
        let den: int = hh2 * hh2;
        assert(0 <= k * hh2 <= den) by (nonlinear_arith)
            requires
                0 <= k <= hh2,
                den == hh2 * hh2,
        {
        }
        assert(den > 0) by (nonlinear_arith)
            requires
                hh2 > 0,
                den == hh2 * hh2,
        {
        }
        assert(hh2 * (k * hh2) == k * den) by (nonlinear_arith)
            requires
                den == hh2 * hh2,
        {
        }
        assert((k * den) / den == k) by (nonlinear_arith)
            requires
                den > 0,
        {
        }
        assert(tdiv(hh2 * (k * hh2), den) == k);
        assert(tdiv(0 * (k * hh2), den) == 0);
        assert(q == IVec3 { x: p0.x, y: c.y, z: p0.z });
    }
    assert(q == IVec3 { x: p0.x, y: c.y, z: p0.z });
    let d = wsub(c, q);
    assert(d == IVec3 { x: dx as i32, y: 0, z: dz as i32 });
    let (ddx, ddy, ddz) = (d.x as int, d.y as int, d.z as int);
    assert(dot(d, d) == ddx * ddx + ddy * ddy + ddz * ddz);
    assert(ddx * ddx + ddy * ddy + ddz * ddz == h2) by (nonlinear_arith)
        requires
            ddx == dx,
            ddy == 0,
            ddz == dz,
            h2 == dx * dx + dz * dz,
    {
    }
    let lim: int = rs + rc;
    assert(crate::query::sat32(rs + rc) as int == lim);
    if h2 <= lim * lim && h2 > 0 {
        crate::arith::lemma_isqrt_root(h2);
        let e = spec_isqrt(h2);
        assert(e <= lim) by (nonlinear_arith)
            requires
                0 <= e,
                e * e <= h2,
                h2 <= lim * lim,
                0 <= lim,
        {
        }
    }
}

/// Packed normal components never reach `i16::MIN`.
pub proof fn lemma_pack_range(n: IVec3, sign: int)
    ensures
        -32767 <= spec_pack_normal(n, sign).0 <= 32767,
        -32767 <= spec_pack_normal(n, sign).1 <= 32767,
        -32767 <= spec_pack_normal(n, sign).2 <= 32767,
{
}

/// Closest sample pair of two segments: nine samples of the first, each
/// against its nearest point on the second; the first strict minimum wins.
pub open spec fn seg_seg_fold(a0: IVec3, a1: IVec3, b0: IVec3, b1: IVec3, k: nat) -> (
    IVec3,
    IVec3,
    int,
)
    decreases k,
{
    if k == 0 {
        (a0, b0, i64::MAX as int)
    } else {
        let prev = seg_seg_fold(a0, a1, b0, b1, (k - 1) as nat);
        let pa = seg_point(a0, a1, k - 1);
        let pb = spec_closest_on_segment(pa, b0, b1);
        let d = dot(wsub(pa, pb), wsub(pa, pb));
        if d < prev.2 {
            (pa, pb, d)
        } else {
            prev
        }
    }
}

/// Closest sample pair of two segments.
pub fn closest_segments(a0: IVec3, a1: IVec3, b0: IVec3, b1: IVec3) -> (r: (IVec3, IVec3))
    ensures
        r.0 == seg_seg_fold(a0, a1, b0, b1, 9).0,
        r.1 == seg_seg_fold(a0, a1, b0, b1, 9).1,
{
    let mut best_a = a0;
    let mut best_b = b0;
    let mut best: i128 = i64::MAX as i128;
    let mut i: i64 = 0;
    while i <= 8
        invariant
            0 <= i <= 9,
            (best_a, best_b, best as int) == seg_seg_fold(a0, a1, b0, b1, i as nat),
        decreases 9 - i,
    {
        let pa = seg_point_exec(a0, a1, i);
        let pb = closest_on_segment(pa, b0, b1);
        let g = pa.wrapping_sub(pb);
        let d = dot_wide(g, g);
        if d < best {
            best = d;
            best_a = pa;
            best_b = pb;
        }
        i = i + 1;
    }
    (best_a, best_b)
}

/// Contact of two capsules: two balls at their closest sample pair; feature 3.
pub open spec fn spec_capsule_capsule(
    ca: IVec3,
    ra: i32,
    ha: i32,
    pa: PoseMm,
    cb: IVec3,
    rb: i32,
    hb: i32,
    pb: PoseMm,
) -> Option<QuantizedContact> {
    let (a0, a1) = spec_capsule_ends(ca, ha, pa);
    let (b0, b1) = spec_capsule_ends(cb, hb, pb);
    let f = seg_seg_fold(a0, a1, b0, b1, 9);
    spec_sphere_points(f.0, ra, f.1, rb, 3)
}

/// Contact of two capsules.
pub fn capsule_capsule(
    ca: IVec3,
    ra: i32,
    ha: i32,
    pa: PoseMm,
    cb: IVec3,
    rb: i32,
    hb: i32,
    pb: PoseMm,
) -> (r: Option<QuantizedContact>)
    ensures
        r == spec_capsule_capsule(ca, ra, ha, pa, cb, rb, hb, pb),
{
    let (a0, a1) = capsule_ends(ca, ha, pa);
    let (b0, b1) = capsule_ends(cb, hb, pb);
    let (qa, qb) = closest_segments(a0, a1, b0, b1);
    sphere_points(qa, ra, qb, rb, 3)
}

} // verus!

//! Ray and conservative shape casts.
use vstd::prelude::*;

use crate::arith::{abs_int, dot, dot_wide, lemma_i32_product, tdiv};
use crate::collide::{contact, spec_contact};
use crate::narrow::wsub;
use crate::physics::PoseMm;
use crate::query::{bounds, posed_point, sat_add, sat_sub, sat32, spec_bounds, spec_obb_bounds,
    spec_posed, sphere_box};
use crate::shape::{GeomError, Shape};
use crate::space::{
    clip_axis, frac_cmp, pair_view, slab_bounded, spec_segment_hit, spec_slab3, AabbMm, IVec3,
    Slab,
};

verus! {

/// Contact slop, millimetres.
pub const CONTACT_SLOP_MM: i32 = 2;

/// Result of a start-to-end shape cast against one obstacle.
#[derive(Copy, Clone, PartialEq, Eq, Structural, Hash, Debug)]
pub struct SweptHit {
    /// Conservative enter fraction numerator.
    pub enter_n: i64,
    /// Conservative enter fraction denominator (`> 0`).
    pub enter_d: i64,
    /// Penetration at the start pose. Zero if separated or touching.
    pub start_depth_mm: i32,
    /// Penetration at the end pose.
    pub end_depth_mm: i32,
    /// Start was free and the conservative Minkowski cast entered the obstacle.
    pub crossing: bool,
}

/// First hit of a segment on an oriented box: exact slabs on the translated
/// box when the attitude is zero, otherwise on the box's world bounds.
pub open spec fn spec_ray_obb(local: AabbMm, pose: PoseMm, origin: IVec3, dir: IVec3) -> Option<(int, int)> {
    if pose.yaw.0 == 0 && pose.pitch.0 == 0 && pose.roll.0 == 0 {
        let t = pose.spec_translation();
        let world = AabbMm {
            min: IVec3 { x: local.min.x.wrapping_add(t.x), y: local.min.y.wrapping_add(t.y), z: local.min.z.wrapping_add(t.z) },
            max: IVec3 { x: local.max.x.wrapping_add(t.x), y: local.max.y.wrapping_add(t.y), z: local.max.z.wrapping_add(t.z) },
        };
        spec_segment_hit(world, origin, dir)
    } else {
        spec_segment_hit(spec_obb_bounds(local, pose), origin, dir)
    }
}

/// First hit of a segment on a ball: a zero segment hits iff its origin is
/// inside; otherwise the ball's box is hit. A negative radius never hits.
pub open spec fn spec_ray_sphere(center: IVec3, radius: i32, origin: IVec3, dir: IVec3) -> Option<(int, int)> {
    if radius < 0 {
        None
    } else if dir == IVec3::spec_zero() {
        let d = wsub(origin, center);
        if dot(d, d) <= radius * radius {
            Some((0int, 1int))
        } else {
            None
        }
    } else {
        spec_segment_hit(sphere_box(center, radius), origin, dir)
    }
}

/// First hit of the closed segment `origin -> origin + dir` on `shape` at
/// `pose`, as a fraction `(n, d)` with `d > 0`. Convex hulls and compounds
/// are not supported.
pub open spec fn spec_raycast(shape: Shape, pose: PoseMm, origin: IVec3, dir: IVec3) -> Result<Option<(int, int)>, GeomError> {
    match shape {
        Shape::OrientedBox { local } => Ok(spec_ray_obb(local, pose, origin, dir)),
        Shape::Sphere { local_center, radius_mm } => Ok(
            spec_ray_sphere(spec_posed(local_center, pose), radius_mm, origin, dir),
        ),
        Shape::Capsule { .. } => match spec_bounds(shape, pose) {
            Ok(b) => Ok(spec_segment_hit(b, origin, dir)),
            Err(e) => Err(e),
        },
        _ => Err(GeomError::Unsupported),
    }
}

fn ray_obb(local: AabbMm, pose: PoseMm, origin: IVec3, dir: IVec3) -> (r: Option<(i64, i64)>)
    ensures
        pair_view(r) == spec_ray_obb(local, pose, origin, dir),
{
    if pose.yaw.0 == 0 && pose.pitch.0 == 0 && pose.roll.0 == 0 {
        let t = pose.translation();
        let world = AabbMm::new(local.min.wrapping_add(t), local.max.wrapping_add(t));
        return world.segment_hit(origin, dir);
    }
    match bounds(Shape::OrientedBox { local }, pose) {
        Ok(b) => {
            proof {
                reveal(crate::query::spec_primitive_bounds);
            }
            b.segment_hit(origin, dir)
        },
        Err(_) => {
            proof {
                reveal(crate::query::spec_primitive_bounds);
            }
            None
        },
    }
}

fn ray_sphere(center: IVec3, radius: i32, origin: IVec3, dir: IVec3) -> (r: Option<(i64, i64)>)
    ensures
        pair_view(r) == spec_ray_sphere(center, radius, origin, dir),
{
    if radius < 0 {
        return None;
    }
    if dir == IVec3::zero() {
        let d = origin.wrapping_sub(center);
        proof {
            lemma_i32_product(radius as int, radius as int);
        }
        let dist2 = dot_wide(d, d);
        if dist2 <= ((radius as i64) * (radius as i64)) as i128 {
            return Some((0, 1));
        }
        return None;
    }
    AabbMm::new(
        IVec3 { x: sat_sub(center.x, radius), y: sat_sub(center.y, radius), z: sat_sub(center.z, radius) },
        IVec3 { x: sat_add(center.x, radius), y: sat_add(center.y, radius), z: sat_add(center.z, radius) },
    ).segment_hit(origin, dir)
}

/// First hit of the closed segment `origin -> origin + dir` against `shape`
/// at `pose`.
pub fn raycast(shape: Shape, pose: PoseMm, origin: IVec3, dir: IVec3) -> (r: Result<Option<(i64, i64)>, GeomError>)
    ensures
        match r {
            Ok(h) => spec_raycast(shape, pose, origin, dir) == Ok::<Option<(int, int)>, GeomError>(pair_view(h)),
            Err(e) => spec_raycast(shape, pose, origin, dir) == Err::<Option<(int, int)>, GeomError>(e),
        },
{
    match shape {
        Shape::OrientedBox { local } => Ok(ray_obb(local, pose, origin, dir)),
        Shape::Sphere { local_center, radius_mm } => Ok(
            ray_sphere(posed_point(local_center, pose), radius_mm, origin, dir),
        ),
        Shape::Capsule { .. } => match bounds(shape, pose) {
            Ok(b) => Ok(b.segment_hit(origin, dir)),
            Err(e) => Err(e),
        },
        _ => Err(GeomError::Unsupported),
    }
}

/// Truncated centre of a box.
pub open spec fn spec_aabb_center(a: AabbMm) -> IVec3 {
    IVec3 {
        x: tdiv(a.min.x + a.max.x, 2) as i32,
        y: tdiv(a.min.y + a.max.y, 2) as i32,
        z: tdiv(a.min.z + a.max.z, 2) as i32,
    }
}

fn aabb_center(a: AabbMm) -> (r: IVec3)
    ensures
        r == spec_aabb_center(a),
{
    crate::narrow::midpoint(a.min, a.max)
}

/// Magnitude of the floored half-extent `(max - min) / 2`, cast to `i32`.
pub open spec fn spec_half_len(min: i32, max: i32) -> i32 {
    abs_int((max - min) / 2) as i32
}

fn half_len(min: i32, max: i32) -> (r: i32)
    ensures
        r == spec_half_len(min, max),
{
    let s = (max as i64) - (min as i64);
    let q: i64 = match s.checked_div_euclid(2) {
        Some(q) => q,
        None => 0,
    };
    let a = if q < 0 {
        -q
    } else {
        q
    };
    a as i32
}

/// The obstacle box grown by the mover's half extents (saturating).
pub open spec fn spec_minkowski_sum(obstacle: AabbMm, mover: AabbMm) -> AabbMm {
    let hx = spec_half_len(mover.min.x, mover.max.x);
    let hy = spec_half_len(mover.min.y, mover.max.y);
    let hz = spec_half_len(mover.min.z, mover.max.z);
    AabbMm {
        min: IVec3 { x: sat32(obstacle.min.x - hx), y: sat32(obstacle.min.y - hy), z: sat32(obstacle.min.z - hz) },
        max: IVec3 { x: sat32(obstacle.max.x + hx), y: sat32(obstacle.max.y + hy), z: sat32(obstacle.max.z + hz) },
    }
}

fn minkowski_sum(obstacle: AabbMm, mover: AabbMm) -> (r: AabbMm)
    ensures
        r == spec_minkowski_sum(obstacle, mover),
{
    let hx = half_len(mover.min.x, mover.max.x);
    let hy = half_len(mover.min.y, mover.max.y);
    let hz = half_len(mover.min.z, mover.max.z);
    AabbMm::new(
        IVec3 { x: sat_sub(obstacle.min.x, hx), y: sat_sub(obstacle.min.y, hy), z: sat_sub(obstacle.min.z, hz) },
        IVec3 { x: sat_add(obstacle.max.x, hx), y: sat_add(obstacle.max.y, hy), z: sat_add(obstacle.max.z, hz) },
    )
}

/// Enter and exit fractions of `origin -> origin + dir` through a closed box
/// with whether the origin starts inside; the entry is clamped to zero.
/// `None` when the segment misses.
pub open spec fn spec_slab_interval(aabb: AabbMm, origin: IVec3, dir: IVec3) -> Option<(int, int, int, int, bool)> {
    if aabb.spec_is_empty() {
        None
    } else if dir == IVec3::spec_zero() {
        if aabb.spec_contains(origin) {
            Some((0int, 1int, 1int, 1int, true))
        } else {
            None
        }
    } else {
        match spec_slab3(aabb, origin, dir) {
            None => None,
            Some(t) => if t.0 * t.3 > t.2 * t.1 || t.2 * 1 < 0 * t.3 || t.0 * 1 > 1 * t.1 {
                None
            } else if t.0 * 1 < 0 * t.1 {
                Some((0int, 1int, t.2, t.3, aabb.spec_contains(origin)))
            } else {
                Some((t.0, t.1, t.2, t.3, aabb.spec_contains(origin)))
            },
        }
    }
}

/// Exec view of a slab interval.
pub open spec fn interval_view(r: Option<(i64, i64, i64, i64, bool)>) -> Option<(int, int, int, int, bool)> {
    match r {
        Some((a, b, c, d, e)) => Some((a as int, b as int, c as int, d as int, e)),
        None => None,
    }
}

fn slab_interval(aabb: AabbMm, origin: IVec3, dir: IVec3) -> (r: Option<(i64, i64, i64, i64, bool)>)
    ensures
        interval_view(r) == spec_slab_interval(aabb, origin, dir),
        r is Some ==> r->Some_0.1 > 0 && r->Some_0.3 > 0,
{
    if aabb.is_empty() {
        return None;
    }
    let inside = aabb.contains_point(origin);
    if dir == IVec3::zero() {
        if inside {
            return Some((0, 1, 1, 1, true));
        }
        return None;
    }
    let mut t = Slab { tmin_n: 0, tmin_d: 1, tmax_n: 1, tmax_d: 1 };
    if !clip_axis(origin.x, dir.x, aabb.min.x, aabb.max.x, &mut t) {
        return None;
    }
    if !clip_axis(origin.y, dir.y, aabb.min.y, aabb.max.y, &mut t) {
        return None;
    }
    if !clip_axis(origin.z, dir.z, aabb.min.z, aabb.max.z, &mut t) {
        return None;
    }
    if matches!(frac_cmp(t.tmin_n, t.tmin_d, t.tmax_n, t.tmax_d), core::cmp::Ordering::Greater) {
        return None;
    }
    if matches!(frac_cmp(t.tmax_n, t.tmax_d, 0, 1), core::cmp::Ordering::Less) {
        return None;
    }
    if matches!(frac_cmp(t.tmin_n, t.tmin_d, 1, 1), core::cmp::Ordering::Greater) {
        return None;
    }
    if matches!(frac_cmp(t.tmin_n, t.tmin_d, 0, 1), core::cmp::Ordering::Less) {
        t.tmin_n = 0;
        t.tmin_d = 1;
    }
    Some((t.tmin_n, t.tmin_d, t.tmax_n, t.tmax_d, inside))
}

/// Depth of an optional contact, zero when absent.
pub open spec fn depth_or_zero(c: Option<crate::physics::QuantizedContact>) -> i32 {
    match c {
        Some(h) => h.depth_mm,
        None => 0,
    }
}

/// A miss: no entry, depths as measured, no crossing.
pub open spec fn no_sweep(sd: i32, ed: i32) -> SweptHit {
    SweptHit { enter_n: 0, enter_d: 1, start_depth_mm: sd, end_depth_mm: ed, crossing: false }
}

/// Conservative translation cast of `mover` from `start` to `end` against one
/// obstacle: the mover's start box, grown into the obstacle box, is cast from
/// the start box centre to the end box centre. It is a crossing when the
/// start was free, the cast entered within the motion, and the end is
/// deeper than the slop, or is free after an early exit, or is deeper than
/// the start.
pub open spec fn spec_swept(mover: Shape, start: PoseMm, end: PoseMm, obstacle: Shape, opose: PoseMm) -> Result<SweptHit, GeomError> {
    match spec_contact(mover, start, obstacle, opose) {
        Err(e) => Err(e),
        Ok(c0) => match spec_contact(mover, end, obstacle, opose) {
            Err(e) => Err(e),
            Ok(c1) => match spec_bounds(mover, start) {
                Err(e) => Err(e),
                Ok(a0) => match spec_bounds(mover, end) {
                    Err(e) => Err(e),
                    Ok(a1) => match spec_bounds(obstacle, opose) {
                        Err(e) => Err(e),
                        Ok(occ) => {
                            let sd = depth_or_zero(c0);
                            let ed = depth_or_zero(c1);
                            if !a0.spec_union(a1).spec_intersects(occ) {
                                Ok(no_sweep(sd, ed))
                            } else {
                                let origin = spec_aabb_center(a0);
                                let dir = wsub(spec_aabb_center(a1), origin);
                                match spec_slab_interval(spec_minkowski_sum(occ, a0), origin, dir) {
                                    None => Ok(no_sweep(sd, ed)),
                                    Some((en, edn, xn, xd, inside)) => {
                                        let start_free = sd == 0 && !a0.spec_intersects(occ);
                                        let went_through = inside || (en >= 0 && en <= edn);
                                        let exited_before_end = xn < xd;
                                        let end_free = ed == 0 && !a1.spec_intersects(occ);
                                        Ok(
                                            SweptHit {
                                                enter_n: en as i64,
                                                enter_d: edn as i64,
                                                start_depth_mm: sd,
                                                end_depth_mm: ed,
                                                crossing: start_free && went_through && (ed > CONTACT_SLOP_MM
                                                    || (exited_before_end && end_free) || ed > sd),
                                            },
                                        )
                                    },
                                }
                            }
                        },
                    },
                },
            },
        },
    }
}

/// Conservative translation cast of `mover` from `start` to `end` against
/// one obstacle.
pub fn swept_against(mover: Shape, start: PoseMm, end: PoseMm, obstacle: Shape, obstacle_pose: PoseMm) -> (r: Result<SweptHit, GeomError>)
    requires
        mover.spec_well_formed(),
        obstacle.spec_well_formed(),
    ensures
        r == spec_swept(mover, start, end, obstacle, obstacle_pose),
{
    let c0 = match contact(mover, start, obstacle, obstacle_pose) {
        Ok(c) => c,
        Err(e) => return Err(e),
    };
    let c1 = match contact(mover, end, obstacle, obstacle_pose) {
        Ok(c) => c,
        Err(e) => return Err(e),
    };
    let start_depth = match c0 {
        Some(h) => h.depth_mm,
        None => 0,
    };
    let end_depth = match c1 {
        Some(h) => h.depth_mm,
        None => 0,
    };
    let a0 = match bounds(mover, start) {
        Ok(b) => b,
        Err(e) => return Err(e),
    };
    let a1 = match bounds(mover, end) {
        Ok(b) => b,
        Err(e) => return Err(e),
    };
    let swept = a0.swept_union(a1);
    let occ = match bounds(obstacle, obstacle_pose) {
        Ok(b) => b,
        Err(e) => return Err(e),
    };
    let miss = SweptHit {
        enter_n: 0,
        enter_d: 1,
        start_depth_mm: start_depth,
        end_depth_mm: end_depth,
        crossing: false,
    };
    if !swept.intersects(occ) {
        return Ok(miss);
    }
    let expanded = minkowski_sum(occ, a0);
    let origin = aabb_center(a0);
    let dir = aabb_center(a1).wrapping_sub(origin);
    let (enter_n, enter_d, exit_n, exit_d, origin_inside) = match slab_interval(expanded, origin, dir) {
        None => return Ok(miss),
        Some(v) => v,
    };
    let start_free = start_depth == 0 && !a0.intersects(occ);
    let went_through = origin_inside || (!matches!(frac_cmp(enter_n, enter_d, 0, 1), core::cmp::Ordering::Less)
        && !matches!(frac_cmp(enter_n, enter_d, 1, 1), core::cmp::Ordering::Greater));
    let exited_before_end = matches!(frac_cmp(exit_n, exit_d, 1, 1), core::cmp::Ordering::Less);
    let end_free = end_depth == 0 && !a1.intersects(occ);
    let crossing = start_free && went_through && (end_depth > CONTACT_SLOP_MM || (exited_before_end
        && end_free) || end_depth > start_depth);
    Ok(
        SweptHit {
            enter_n,
            enter_d,
            start_depth_mm: start_depth,
            end_depth_mm: end_depth,
            crossing,
        },
    )
}

/// The value fits an `i32`.
pub open spec fn fits32(v: int) -> bool {
    i32::MIN <= v <= i32::MAX
}

/// A box held at zero attitude moves with its pose: a segment cast at the
/// box posed at `pose` hits exactly as the same segment, shifted back by the
/// pose's translation, hits the box at the world origin (as long as no
/// coordinate leaves the `i32` range).
pub proof fn lemma_ray_box_moves_with_pose(local: AabbMm, pose: PoseMm, origin: IVec3, dir: IVec3)
    requires
        pose.yaw.0 == 0,
        pose.pitch.0 == 0,
        pose.roll.0 == 0,
        fits32(local.min.x + pose.x.0) && fits32(local.max.x + pose.x.0),
        fits32(local.min.y + pose.y.0) && fits32(local.max.y + pose.y.0),
        fits32(local.min.z + pose.z.0) && fits32(local.max.z + pose.z.0),
        fits32(origin.x - pose.x.0) && fits32(origin.y - pose.y.0) && fits32(origin.z - pose.z.0),
    ensures
        spec_raycast(Shape::OrientedBox { local }, pose, origin, dir) == spec_raycast(
            Shape::OrientedBox { local },
            PoseMm { x: crate::units::Mm(0), y: crate::units::Mm(0), z: crate::units::Mm(0), ..pose },
            IVec3 {
                x: (origin.x - pose.x.0) as i32,
                y: (origin.y - pose.y.0) as i32,
                z: (origin.z - pose.z.0) as i32,
            },
            dir,
        ),
{
    let home = PoseMm { x: crate::units::Mm(0), y: crate::units::Mm(0), z: crate::units::Mm(0), ..pose };
    let back = IVec3 {
        x: (origin.x - pose.x.0) as i32,
        y: (origin.y - pose.y.0) as i32,
        z: (origin.z - pose.z.0) as i32,
    };
    let t = pose.spec_translation();
    let world = AabbMm {
        min: IVec3 { x: local.min.x.wrapping_add(t.x), y: local.min.y.wrapping_add(t.y), z: local.min.z.wrapping_add(t.z) },
        max: IVec3 { x: local.max.x.wrapping_add(t.x), y: local.max.y.wrapping_add(t.y), z: local.max.z.wrapping_add(t.z) },
    };
    let at_home = AabbMm {
        min: IVec3 { x: local.min.x.wrapping_add(0), y: local.min.y.wrapping_add(0), z: local.min.z.wrapping_add(0) },
        max: IVec3 { x: local.max.x.wrapping_add(0), y: local.max.y.wrapping_add(0), z: local.max.z.wrapping_add(0) },
    };
    assert(at_home == local);
    assert(spec_ray_obb(local, home, back, dir) == spec_segment_hit(local, back, dir));
    assert(spec_ray_obb(local, pose, origin, dir) == spec_segment_hit(world, origin, dir));
    crate::space::lemma_segment_hit_shift(local, world, back, origin, dir, t);
}

/// A cast reports its first time of contact: at no time from the start of
/// the motion up to (not including) the reported entry fraction is the
/// centre of the mover's start box, travelling along the cast, inside the
/// obstacle's box grown by the mover's half extents.
#[verifier::spinoff_prover]
pub proof fn lemma_swept_entry_is_first(
    mover: Shape,
    start: PoseMm,
    end: PoseMm,
    obstacle: Shape,
    opose: PoseMm,
    sn: int,
    sd: int,
)
    requires
        sd > 0,
        sn >= 0,
        spec_swept(mover, start, end, obstacle, opose) matches Ok(h) && sn * h.enter_d < h.enter_n * sd,
    ensures
        spec_bounds(mover, start) is Ok,
        spec_bounds(mover, end) is Ok,
        spec_bounds(obstacle, opose) is Ok,
        !crate::space::point_in_at(
            spec_minkowski_sum(spec_bounds(obstacle, opose)->Ok_0, spec_bounds(mover, start)->Ok_0),
            spec_aabb_center(spec_bounds(mover, start)->Ok_0),
            wsub(spec_aabb_center(spec_bounds(mover, end)->Ok_0), spec_aabb_center(spec_bounds(mover, start)->Ok_0)),
            sn,
            sd,
        ),
{
    let a0 = spec_bounds(mover, start)->Ok_0;
    let a1 = spec_bounds(mover, end)->Ok_0;
    let occ = spec_bounds(obstacle, opose)->Ok_0;
    let g = spec_minkowski_sum(occ, a0);
    let o = spec_aabb_center(a0);
    let d = wsub(spec_aabb_center(a1), o);
    let h = spec_swept(mover, start, end, obstacle, opose)->Ok_0;
    lemma_interval_entry_is_first(g, o, d, sn, sd);
    if a0.spec_union(a1).spec_intersects(occ) && spec_slab_interval(g, o, d) is Some {
        let r = spec_slab_interval(g, o, d)->Some_0;
        assert(h.enter_n == r.0 && h.enter_d == r.1);
    } else {
        assert(h.enter_n == 0 && h.enter_d == 1);
        assert(sn * 1 >= 0 * sd);
    }
}

/// Before the entry of a slab interval, from time zero on, the point is
/// outside the box; the entry is a bounded fraction with a positive
/// denominator.
proof fn lemma_interval_entry_is_first(g: AabbMm, o: IVec3, d: IVec3, sn: int, sd: int)
    requires
        sd > 0,
        sn >= 0,
    ensures
        spec_slab_interval(g, o, d) matches Some(r) ==> -0x2_0000_0000 <= r.0 <= 0x2_0000_0000 && 1 <= r.1
            <= 0x8000_0000,
        spec_slab_interval(g, o, d) matches Some(r) && sn * r.1 < r.0 * sd ==> !crate::space::point_in_at(
            g,
            o,
            d,
            sn,
            sd,
        ),
{
    crate::space::lemma_slab3_entry(g, o, d);
    assert(sn * 1 >= 0 * sd);
    if !g.spec_is_empty() && d != IVec3::spec_zero() {
        if let Some(t) = spec_slab3(g, o, d) {
            if sn * t.1 < t.0 * sd {
                crate::space::lemma_slab3_outside_before(g, o, d, sn, sd);
            }
        }
    }
}

/// A slab interval's entry is a fraction of the motion, `0 <= n / d <= 1`,
/// at which the point is inside the box.
proof fn lemma_interval_entry_inside(g: AabbMm, o: IVec3, d: IVec3)
    ensures
        spec_slab_interval(g, o, d) matches Some(r) ==> r.1 > 0 && 0 <= r.0 <= r.1 && crate::space::point_in_at(
            g,
            o,
            d,
            r.0,
            r.1,
        ),
{
    if let Some(r) = spec_slab_interval(g, o, d) {
        if d == IVec3::spec_zero() {
            assert(crate::space::point_in_at(g, o, d, 0, 1));
        } else {
            let t = spec_slab3(g, o, d)->Some_0;
            crate::space::lemma_slab3_entry(g, o, d);
            if t.0 * 1 < 0 * t.1 {
                crate::space::lemma_slab3_inside(g, o, d, 0, 1);
            } else {
                crate::space::lemma_slab3_inside(g, o, d, t.0, t.1);
            }
        }
    }
}

/// A crossing is reported at its time of contact: the entry fraction lies
/// within the motion (`0 <= enter_n / enter_d <= 1`), and there the centre
/// of the mover's start box, travelling along the cast, is inside the
/// obstacle's box grown by the mover's half extents.
#[verifier::spinoff_prover]
pub proof fn lemma_swept_crossing_enters(mover: Shape, start: PoseMm, end: PoseMm, obstacle: Shape, opose: PoseMm)
    requires
        spec_swept(mover, start, end, obstacle, opose) matches Ok(h) && h.crossing,
    ensures
        spec_bounds(mover, start) is Ok,
        spec_bounds(mover, end) is Ok,
        spec_bounds(obstacle, opose) is Ok,
        ({
            let h = spec_swept(mover, start, end, obstacle, opose)->Ok_0;
            let a0 = spec_bounds(mover, start)->Ok_0;
            let o = spec_aabb_center(a0);
            &&& h.enter_d > 0
            &&& 0 <= h.enter_n <= h.enter_d
            &&& crate::space::point_in_at(
                spec_minkowski_sum(spec_bounds(obstacle, opose)->Ok_0, a0),
                o,
                wsub(spec_aabb_center(spec_bounds(mover, end)->Ok_0), o),
                h.enter_n as int,
                h.enter_d as int,
            )
        }),
{
    let a0 = spec_bounds(mover, start)->Ok_0;
    let a1 = spec_bounds(mover, end)->Ok_0;
    let occ = spec_bounds(obstacle, opose)->Ok_0;
    let g = spec_minkowski_sum(occ, a0);
    let o = spec_aabb_center(a0);
    let d = wsub(spec_aabb_center(a1), o);
    let h = spec_swept(mover, start, end, obstacle, opose)->Ok_0;
    lemma_interval_entry_is_first(g, o, d, 0, 1);
    lemma_interval_entry_inside(g, o, d);
    let r = spec_slab_interval(g, o, d)->Some_0;
    assert(h.enter_n == r.0 && h.enter_d == r.1);
}

/// A segment cast at a box held at zero attitude reports the first hit on
/// the posed box: the fraction lies within the segment, the point there is
/// inside the box moved by the pose's translation, and at no earlier time
/// from the segment's start is it inside (as long as no corner of the
/// moved box leaves the `i32` range).
#[verifier::spinoff_prover]
pub proof fn lemma_ray_box_first_hit(local: AabbMm, pose: PoseMm, origin: IVec3, dir: IVec3, sn: int, sd: int)
    requires
        pose.yaw.0 == 0,
        pose.pitch.0 == 0,
        pose.roll.0 == 0,
        fits32(local.min.x + pose.x.0) && fits32(local.max.x + pose.x.0),
        fits32(local.min.y + pose.y.0) && fits32(local.max.y + pose.y.0),
        fits32(local.min.z + pose.z.0) && fits32(local.max.z + pose.z.0),
        spec_raycast(Shape::OrientedBox { local }, pose, origin, dir) matches Ok(Some(_)),
        sd > 0,
        0 <= sn,
    ensures
        ({
            let h = spec_raycast(Shape::OrientedBox { local }, pose, origin, dir)->Ok_0->Some_0;
            let world = AabbMm {
                min: IVec3 {
                    x: (local.min.x + pose.x.0) as i32,
                    y: (local.min.y + pose.y.0) as i32,
                    z: (local.min.z + pose.z.0) as i32,
                },
                max: IVec3 {
                    x: (local.max.x + pose.x.0) as i32,
                    y: (local.max.y + pose.y.0) as i32,
                    z: (local.max.z + pose.z.0) as i32,
                },
            };
            &&& h.1 > 0
            &&& 0 <= h.0 <= h.1
            &&& crate::space::point_in_at(world, origin, dir, h.0, h.1)
            &&& sn * h.1 < h.0 * sd ==> !crate::space::point_in_at(world, origin, dir, sn, sd)
        }),
{
    let t = pose.spec_translation();
    let world = AabbMm {
        min: IVec3 { x: local.min.x.wrapping_add(t.x), y: local.min.y.wrapping_add(t.y), z: local.min.z.wrapping_add(t.z) },
        max: IVec3 { x: local.max.x.wrapping_add(t.x), y: local.max.y.wrapping_add(t.y), z: local.max.z.wrapping_add(t.z) },
    };
    assert(spec_raycast(Shape::OrientedBox { local }, pose, origin, dir) == Ok::<Option<(int, int)>, GeomError>(
        spec_segment_hit(world, origin, dir),
    ));
    crate::space::lemma_segment_hit_inside(world, origin, dir);
    let h = spec_segment_hit(world, origin, dir)->Some_0;
    if sn * h.1 < h.0 * sd {
        crate::space::lemma_segment_hit_is_first(world, origin, dir, sn, sd);
    }
}

} // verus!

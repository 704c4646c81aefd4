//! Narrow-phase helpers and the separating-axis test of two oriented boxes.
//!
//! Every kernel is stated exactly over mathematical integers. Intermediates
//! that could leave 64 bits are computed in 128 bits, so the results agree
//! with 64-bit evaluation wherever that does not overflow.
use vstd::prelude::*;

use crate::arith::{
    clamp_i64, clamp_int, div_trunc, dot, dot_wide, floor_fx, isqrt, lemma_dot_self_range,
    spec_isqrt, tdiv,
};
use crate::physics::{PoseMm, QuantizedContact};
use crate::query::{corners, posed_corners};
use crate::space::{AabbMm, IVec3};
use crate::yaw::{rotation_axes, spec_rotation_axes};

verus! {

/// Feature ids 0..2 are A face axes, 3..5 B face axes, 6+ cross/closest-feature.
pub const FEATURE_AXIS_A: u16 = 0;

/// First B-face SAT axis.
pub const FEATURE_AXIS_B: u16 = 3;

/// Component-wise wrapping difference.
pub open spec fn wsub(a: IVec3, b: IVec3) -> IVec3 {
    IVec3 { x: a.x.wrapping_sub(b.x), y: a.y.wrapping_sub(b.y), z: a.z.wrapping_sub(b.z) }
}

/// Component-wise wrapping negation.
pub open spec fn wneg(v: IVec3) -> IVec3 {
    IVec3 { x: (0 as i32).wrapping_sub(v.x), y: (0 as i32).wrapping_sub(v.y), z: (0 as i32).wrapping_sub(v.z) }
}

/// Wrapping negation of each component.
pub fn neg(v: IVec3) -> (r: IVec3)
    ensures
        r == wneg(v),
{
    IVec3 { x: 0i32.wrapping_sub(v.x), y: 0i32.wrapping_sub(v.y), z: 0i32.wrapping_sub(v.z) }
}

/// `max(n, 1)`.
pub open spec fn at_least_one(n: int) -> int {
    if n > 1 {
        n
    } else {
        1
    }
}

/// One packed normal component: `c * s / mag`, truncated, within `+-32767`.
pub open spec fn pack_comp(c: int, s: int, mag: int) -> i16 {
    clamp_int(tdiv(c * s, mag), -32767, 32767) as i16
}

/// Unit-ish normal at 32767 scale along `n`, pointing by `sign`.
pub open spec fn spec_pack_normal(n: IVec3, sign: int) -> (i16, i16, i16) {
    let mag = at_least_one(spec_isqrt(dot(n, n)));
    let s = 32767 * sign;
    (pack_comp(n.x as int, s, mag), pack_comp(n.y as int, s, mag), pack_comp(n.z as int, s, mag))
}

fn pack_comp_exec(c: i32, s: i64, mag: i64) -> (r: i16)
    requires
        s == 32767 || s == -32767,
        mag >= 1,
    ensures
        r == pack_comp(c as int, s as int, mag as int),
{
    proof {
        assert(-0x8000_0000_0000 <= c * s <= 0x8000_0000_0000) by (nonlinear_arith)
            requires
                i32::MIN <= c <= i32::MAX,
                -32767 <= s <= 32767,
        {
        }
    }
    clamp_i64(div_trunc((c as i64) * s, mag), -32767, 32767) as i16
}

/// Pack `n` into a 32767-scale normal pointing by `sign`.
pub fn pack_normal(n: IVec3, sign: i64) -> (r: (i16, i16, i16))
    requires
        sign == 1 || sign == -1,
    ensures
        r == spec_pack_normal(n, sign as int),
{
    proof {
        lemma_dot_self_range(n);
    }
    let root = isqrt(dot_wide(n, n));
    let mag = if root > 1 {
        root
    } else {
        1
    };
    let s = 32767 * sign;
    (pack_comp_exec(n.x, s, mag), pack_comp_exec(n.y, s, mag), pack_comp_exec(n.z, s, mag))
}

/// Truncated midpoint of two points.
pub open spec fn spec_midpoint(a: IVec3, b: IVec3) -> IVec3 {
    IVec3 {
        x: tdiv(a.x + b.x, 2) as i32,
        y: tdiv(a.y + b.y, 2) as i32,
        z: tdiv(a.z + b.z, 2) as i32,
    }
}

/// Truncated midpoint of two points.
pub fn midpoint(a: IVec3, b: IVec3) -> (r: IVec3)
    ensures
        r == spec_midpoint(a, b),
{
    IVec3 {
        x: div_trunc(a.x as i64 + b.x as i64, 2) as i32,
        y: div_trunc(a.y as i64 + b.y as i64, 2) as i32,
        z: div_trunc(a.z as i64 + b.z as i64, 2) as i32,
    }
}

/// Sum of the `x`, `y` or `z` coordinates (`k` = 0, 1, 2) of a point sequence.
pub open spec fn sum_coord(s: Seq<IVec3>, k: int) -> int
    decreases s.len(),
{
    if s.len() == 0 {
        0
    } else {
        sum_coord(s.drop_last(), k) + if k == 0 {
            s.last().x as int
        } else if k == 1 {
            s.last().y as int
        } else {
            s.last().z as int
        }
    }
}

/// Truncated mean of a non-empty point sequence.
pub open spec fn spec_centroid(s: Seq<IVec3>) -> IVec3 {
    IVec3 {
        x: tdiv(sum_coord(s, 0), s.len() as int) as i32,
        y: tdiv(sum_coord(s, 1), s.len() as int) as i32,
        z: tdiv(sum_coord(s, 2), s.len() as int) as i32,
    }
}

/// Coordinate sums of a prefix stay within the prefix length times the `i32` range.
proof fn lemma_sum_coord_range(s: Seq<IVec3>, k: int)
    ensures
        -0x8000_0000 * s.len() <= sum_coord(s, k) <= 0x8000_0000 * s.len(),
    decreases s.len(),
{
    if s.len() > 0 {
        lemma_sum_coord_range(s.drop_last(), k);
    }
}

/// Truncated mean of a non-empty slice of at most 64 points.
pub fn centroid(points: &[IVec3]) -> (r: IVec3)
    requires
        1 <= points@.len() <= 64,
    ensures
        r == spec_centroid(points@),
{
    let n = points.len();
    let mut sx: i64 = 0;
    let mut sy: i64 = 0;
    let mut sz: i64 = 0;
    let mut i: usize = 0;
    while i < n
        invariant
            n == points@.len(),
            n <= 64,
            0 <= i <= n,
            sx == sum_coord(points@.take(i as int), 0),
            sy == sum_coord(points@.take(i as int), 1),
            sz == sum_coord(points@.take(i as int), 2),
        decreases n - i,
    {
        proof {
            lemma_sum_coord_range(points@.take(i as int), 0);
            lemma_sum_coord_range(points@.take(i as int), 1);
            lemma_sum_coord_range(points@.take(i as int), 2);
            assert(points@.take(i as int + 1).drop_last() =~= points@.take(i as int));
        }
        sx = sx + points[i].x as i64;
        sy = sy + points[i].y as i64;
        sz = sz + points[i].z as i64;
        i = i + 1;
    }
    assert(points@.take(n as int) =~= points@);
    IVec3 {
        x: div_trunc(sx, n as i64) as i32,
        y: div_trunc(sy, n as i64) as i32,
        z: div_trunc(sz, n as i64) as i32,
    }
}

/// `|x| + |y| + |z|`.
pub open spec fn l1(v: IVec3) -> int {
    crate::arith::abs_int(v.x as int) + crate::arith::abs_int(v.y as int) + crate::arith::abs_int(
        v.z as int,
    )
}

/// `|x| + |y| + |z|`.
pub fn l1_exec(v: IVec3) -> (r: i64)
    ensures
        r == l1(v),
{
    let x = v.x as i64;
    let y = v.y as i64;
    let z = v.z as i64;
    (if x < 0 {
        -x
    } else {
        x
    }) + (if y < 0 {
        -y
    } else {
        y
    }) + (if z < 0 {
        -z
    } else {
        z
    })
}

/// 16.16 projection: floor of `p . n / 2^16`.
pub open spec fn fx_proj(p: IVec3, n: IVec3) -> int {
    dot(p, n) / 65536
}

fn fx_proj_exec(p: IVec3, n: IVec3) -> (r: i64)
    ensures
        r == fx_proj(p, n),
{
    floor_fx(dot_wide(p, n)) as i64
}

/// Smallest 16.16 projection of a non-empty point sequence.
pub open spec fn proj_min(s: Seq<IVec3>, n: IVec3) -> int
    decreases s.len(),
{
    if s.len() <= 1 {
        fx_proj(s[0], n)
    } else {
        let a = proj_min(s.drop_last(), n);
        let b = fx_proj(s.last(), n);
        if b < a {
            b
        } else {
            a
        }
    }
}

/// Largest 16.16 projection of a non-empty point sequence.
pub open spec fn proj_max(s: Seq<IVec3>, n: IVec3) -> int
    decreases s.len(),
{
    if s.len() <= 1 {
        fx_proj(s[0], n)
    } else {
        let a = proj_max(s.drop_last(), n);
        let b = fx_proj(s.last(), n);
        if b > a {
            b
        } else {
            a
        }
    }
}

/// Extreme 16.16 projections of the eight corners onto `n`.
fn project(cs: &[IVec3; 8], n: IVec3) -> (r: (i64, i64))
    ensures
        r.0 == proj_min(cs@, n),
        r.1 == proj_max(cs@, n),
{
    let first = fx_proj_exec(cs[0], n);
    let mut lo = first;
    let mut hi = first;
    let mut i: usize = 1;
    while i < 8
        invariant
            1 <= i <= 8,
            cs@.len() == 8,
            lo == proj_min(cs@.take(i as int), n),
            hi == proj_max(cs@.take(i as int), n),
        decreases 8 - i,
    {
        assert(cs@.take(i as int + 1).drop_last() =~= cs@.take(i as int));
        let d = fx_proj_exec(cs[i], n);
        if d < lo {
            lo = d;
        }
        if d > hi {
            hi = d;
        }
        i = i + 1;
    }
    assert(cs@.take(8) =~= cs@);
    (lo, hi)
}

/// Overlap in millimetres: the 16.16 overlap scaled by the axis length.
pub open spec fn spec_overlap_to_mm(overlap: int, n: IVec3) -> i32 {
    let mag2 = dot(n, n);
    if mag2 <= 0 {
        clamp_int(overlap, 0, i32::MAX as int) as i32
    } else {
        clamp_int(tdiv(overlap * 65536, at_least_one(spec_isqrt(mag2))), 0, i32::MAX as int) as i32
    }
}

fn overlap_to_mm(overlap: i64, n: IVec3) -> (r: i32)
    requires
        0 <= overlap <= 0x2_0000_0000_0000,
    ensures
        r == spec_overlap_to_mm(overlap as int, n),
{
    proof {
        lemma_dot_self_range(n);
    }
    let mag2 = dot_wide(n, n);
    if mag2 <= 0 {
        return clamp_i64(overlap, 0, i32::MAX as i64) as i32;
    }
    let root = isqrt(mag2);
    let mag = if root > 1 {
        root
    } else {
        1
    };
    let scaled = (overlap as i128) * 65536;
    let q: i128 = match scaled.checked_div_euclid(mag as i128) {
        Some(q) => q,
        None => 0,
    };
    assert(tdiv(scaled as int, mag as int) == scaled as int / mag as int);
    assert(0 <= q <= scaled) by (nonlinear_arith)
        requires
            q == scaled as int / mag as int,
            scaled >= 0,
            mag >= 1,
    {
    }
    let c: i128 = if q > i32::MAX as i128 {
        i32::MAX as i128
    } else {
        q
    };
    c as i32
}

/// Overlap of the two corner sets along `n`, or `None` if `n` separates them.
/// A zero axis overlaps by zero.
pub open spec fn spec_overlap_mm(ca: Seq<IVec3>, cb: Seq<IVec3>, n: IVec3) -> Option<i32> {
    if n == IVec3::spec_zero() {
        Some(0i32)
    } else {
        let lo = if proj_min(ca, n) > proj_min(cb, n) {
            proj_min(ca, n)
        } else {
            proj_min(cb, n)
        };
        let hi = if proj_max(ca, n) < proj_max(cb, n) {
            proj_max(ca, n)
        } else {
            proj_max(cb, n)
        };
        if hi - lo < 0 {
            None
        } else {
            Some(spec_overlap_to_mm(hi - lo, n))
        }
    }
}

/// A 16.16 projection of `i32` vectors stays within `2^47`.
proof fn lemma_fx_proj_range(p: IVec3, n: IVec3)
    ensures
        -0x1_0000_0000_0000 <= fx_proj(p, n) <= 0x1_0000_0000_0000,
{
    crate::arith::lemma_i32_product(p.x as int, n.x as int);
    crate::arith::lemma_i32_product(p.y as int, n.y as int);
    crate::arith::lemma_i32_product(p.z as int, n.z as int);
}

/// Extreme projections are projections of some point.
proof fn lemma_proj_range(s: Seq<IVec3>, n: IVec3)
    requires
        s.len() >= 1,
    ensures
        -0x1_0000_0000_0000 <= proj_min(s, n) <= 0x1_0000_0000_0000,
        -0x1_0000_0000_0000 <= proj_max(s, n) <= 0x1_0000_0000_0000,
    decreases s.len(),
{
    lemma_fx_proj_range(s.last(), n);
    lemma_fx_proj_range(s[0], n);
    if s.len() > 1 {
        lemma_proj_range(s.drop_last(), n);
    }
}

fn interval_overlap_mm(ca: &[IVec3; 8], cb: &[IVec3; 8], n: IVec3) -> (r: Option<i32>)
    ensures
        r == spec_overlap_mm(ca@, cb@, n),
{
    if n == IVec3::zero() {
        return Some(0);
    }
    let (amin, amax) = project(ca, n);
    let (bmin, bmax) = project(cb, n);
    proof {
        lemma_proj_range(ca@, n);
        lemma_proj_range(cb@, n);
    }
    let lo = if amin > bmin {
        amin
    } else {
        bmin
    };
    let hi = if amax < bmax {
        amax
    } else {
        bmax
    };
    let overlap = hi - lo;
    if overlap < 0 {
        return None;
    }
    Some(overlap_to_mm(overlap, n))
}

/// 16.16 cross product, each entry floored by 2^16 and truncated to `i32`.
pub open spec fn spec_cross_fx(a: IVec3, b: IVec3) -> IVec3 {
    IVec3 {
        x: ((a.y * b.z - a.z * b.y) / 65536) as i32,
        y: ((a.z * b.x - a.x * b.z) / 65536) as i32,
        z: ((a.x * b.y - a.y * b.x) / 65536) as i32,
    }
}

fn cross_entry(a: i32, b: i32, c: i32, d: i32) -> (r: i32)
    ensures
        r == ((a * b - c * d) / 65536) as i32,
{
    proof {
        crate::arith::lemma_i32_product(a as int, b as int);
        crate::arith::lemma_i32_product(c as int, d as int);
    }
    floor_fx((a as i128) * (b as i128) - (c as i128) * (d as i128)) as i32
}

fn cross_fx(a: IVec3, b: IVec3) -> (r: IVec3)
    ensures
        r == spec_cross_fx(a, b),
{
    IVec3 {
        x: cross_entry(a.y, b.z, a.z, b.y),
        y: cross_entry(a.z, b.x, a.x, b.z),
        z: cross_entry(a.x, b.y, a.y, b.x),
    }
}

/// The fifteen candidate separating axes of two posed boxes: three face
/// axes of each, then the nine 16.16 edge cross products, `a` axis slowest.
pub open spec fn obb_axes(pa: PoseMm, pb: PoseMm) -> Seq<IVec3> {
    let (ax, ay, az) = spec_rotation_axes(pa.yaw, pa.pitch, pa.roll);
    let (bx, by, bz) = spec_rotation_axes(pb.yaw, pb.pitch, pb.roll);
    seq![
        ax,
        ay,
        az,
        bx,
        by,
        bz,
        spec_cross_fx(ax, bx),
        spec_cross_fx(ax, by),
        spec_cross_fx(ax, bz),
        spec_cross_fx(ay, bx),
        spec_cross_fx(ay, by),
        spec_cross_fx(ay, bz),
        spec_cross_fx(az, bx),
        spec_cross_fx(az, by),
        spec_cross_fx(az, bz),
    ]
}

/// Running state of a separating-axis search: shallowest depth, its axis,
/// its feature id, and whether any axis was taken.
pub type SatState = (i32, IVec3, u16, bool);

/// Cross-product axes shorter than 256 (L1) are degenerate and skipped.
pub open spec fn obb_axis_skipped(axes: Seq<IVec3>, i: int) -> bool {
    i >= 6 && l1(axes[i]) < 256
}

/// State after testing the first `k` axes; `None` once an axis separates.
/// A strictly shallower overlap replaces the current choice.
pub open spec fn sat_fold(axes: Seq<IVec3>, ca: Seq<IVec3>, cb: Seq<IVec3>, k: nat) -> Option<
    SatState,
>
    decreases k,
{
    if k == 0 {
        Some((i32::MAX, IVec3::spec_zero(), 0u16, false))
    } else {
        match sat_fold(axes, ca, cb, (k - 1) as nat) {
            None => None,
            Some(st) => {
                let i = k - 1;
                if obb_axis_skipped(axes, i) {
                    Some(st)
                } else {
                    match spec_overlap_mm(ca, cb, axes[i]) {
                        None => None,
                        Some(d) => if d < st.0 {
                            Some((d, axes[i], i as u16, true))
                        } else {
                            Some(st)
                        },
                    }
                }
            },
        }
    }
}

/// Contact of two oriented boxes by the separating-axis test: `None` when
/// some axis separates them (or none was usable); otherwise the shallowest
/// overlap, its axis as the normal (pointing from `b` toward `a`), the
/// midpoint of the two corner centroids and the axis index as feature.
pub open spec fn spec_obb_obb(la: AabbMm, pa: PoseMm, lb: AabbMm, pb: PoseMm) -> Option<
    QuantizedContact,
> {
    let ca = posed_corners(la, pa);
    let cb = posed_corners(lb, pb);
    match sat_fold(obb_axes(pa, pb), ca, cb, 15) {
        None => None,
        Some(st) => if !st.3 {
            None
        } else {
            let ac = spec_centroid(ca);
            let bc = spec_centroid(cb);
            let sign = if dot(wsub(ac, bc), st.1) >= 0 {
                1int
            } else {
                -1int
            };
            Some(
                QuantizedContact {
                    point: spec_midpoint(ac, bc),
                    normal: spec_pack_normal(st.1, sign),
                    depth_mm: st.0,
                    feature: st.2,
                },
            )
        },
    }
}

/// Component-wise wrapping difference.
pub fn diff(a: IVec3, b: IVec3) -> (r: IVec3)
    ensures
        r == wsub(a, b),
{
    a.wrapping_sub(b)
}

/// Separating-axis contact of two oriented boxes.
pub fn obb_obb(la: AabbMm, pa: PoseMm, lb: AabbMm, pb: PoseMm) -> (r: Option<QuantizedContact>)
    ensures
        r == spec_obb_obb(la, pa, lb, pb),
{
    let ca = corners(la, pa);
    let cb = corners(lb, pb);
    let (ax, ay, az) = rotation_axes(pa.yaw, pa.pitch, pa.roll);
    let (bx, by, bz) = rotation_axes(pb.yaw, pb.pitch, pb.roll);
    let axes = [
        ax,
        ay,
        az,
        bx,
        by,
        bz,
        cross_fx(ax, bx),
        cross_fx(ax, by),
        cross_fx(ax, bz),
        cross_fx(ay, bx),
        cross_fx(ay, by),
        cross_fx(ay, bz),
        cross_fx(az, bx),
        cross_fx(az, by),
        cross_fx(az, bz),
    ];
    assert(axes@ =~= obb_axes(pa, pb));
    let mut best_depth = i32::MAX;
    let mut best_axis = IVec3::zero();
    let mut best_feature: u16 = 0;
    let mut found = false;
    let mut i: usize = 0;
    while i < 15
        invariant
            0 <= i <= 15,
            axes@ == obb_axes(pa, pb),
            ca@ == posed_corners(la, pa),
            cb@ == posed_corners(lb, pb),
            sat_fold(axes@, ca@, cb@, i as nat) == Some::<SatState>(
                (best_depth, best_axis, best_feature, found),
            ),
        decreases 15 - i,
    {
        let n = axes[i];
        if i >= 6 && l1_exec(n) < 256 {
            i = i + 1;
            continue;
        }
        match interval_overlap_mm(&ca, &cb, n) {
            None => {
                proof {
                    lemma_sat_fold_none(axes@, ca@, cb@, (i + 1) as nat, 15);
                }
                return None;
            },
            Some(depth) => {
                if depth < best_depth {
                    best_depth = depth;
                    best_axis = n;
                    best_feature = i as u16;
                    found = true;
                }
            },
        }
        i = i + 1;
    }
    if !found {
        return None;
    }
    let ac = centroid(&ca);
    let bc = centroid(&cb);
    let sign: i64 = if dot_wide(diff(ac, bc), best_axis) >= 0 {
        1
    } else {
        -1
    };
    Some(
        QuantizedContact {
            point: midpoint(ac, bc),
            normal: pack_normal(best_axis, sign),
            depth_mm: best_depth,
            feature: best_feature,
        },
    )
}

/// Once an axis separates, every longer search reports separation.
pub proof fn lemma_sat_fold_none(
    axes: Seq<IVec3>,
    ca: Seq<IVec3>,
    cb: Seq<IVec3>,
    k: nat,
    m: nat,
)
    requires
        k <= m,
        sat_fold(axes, ca, cb, k) is None,
    ensures
        sat_fold(axes, ca, cb, m) is None,
    decreases m,
{
    if m > k {
        lemma_sat_fold_none(axes, ca, cb, k, (m - 1) as nat);
    }
}

} // verus!

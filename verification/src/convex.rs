//! Separating-axis contact of convex point clouds (convex hulls and boxes).
use vstd::prelude::*;

use crate::arith::{clamp_int, dot, dot_wide, isqrt, lemma_dot_self_range, lemma_i32_product,
    spec_isqrt};
use crate::narrow::{at_least_one, centroid, l1, l1_exec, midpoint, neg, pack_normal,
    spec_centroid, spec_midpoint, spec_pack_normal, wneg, wsub};
use crate::physics::{PoseMm, QuantizedContact};
use crate::query::{convex_points, convex_world, corners, posed_corners};
use crate::shape::{GeomError, Shape, MAX_CONVEX_VERTICES};
use crate::space::IVec3;

verus! {

/// World points of a box (its eight corners) or of a convex hull (its live
/// vertices); other shapes have none.
pub open spec fn spec_poly_points(shape: Shape, pose: PoseMm) -> Result<Seq<IVec3>, GeomError> {
    match shape {
        Shape::OrientedBox { local } => Ok(posed_corners(local, pose)),
        Shape::Convex { vertices, len } => if 4 <= len <= MAX_CONVEX_VERTICES {
            Ok(convex_world(vertices, len, pose))
        } else {
            Err(GeomError::Malformed)
        },
        _ => Err(GeomError::Unsupported),
    }
}

/// World points of a box or convex hull.
pub fn poly_points(shape: Shape, pose: PoseMm) -> (r: Result<Vec<IVec3>, GeomError>)
    ensures
        match r {
            Ok(v) => spec_poly_points(shape, pose) == Ok::<Seq<IVec3>, GeomError>(v@),
            Err(e) => spec_poly_points(shape, pose) == Err::<Seq<IVec3>, GeomError>(e),
        },
        r is Ok ==> 4 <= r->Ok_0@.len() <= MAX_CONVEX_VERTICES,
{
    match shape {
        Shape::OrientedBox { local } => {
            let cs = corners(local, pose);
            let mut v: Vec<IVec3> = Vec::new();
            let mut i: usize = 0;
            while i < 8
                invariant
                    0 <= i <= 8,
                    cs@.len() == 8,
                    v@ =~= cs@.take(i as int),
                decreases 8 - i,
            {
                v.push(cs[i]);
                i = i + 1;
            }
            assert(v@ =~= cs@);
            Ok(v)
        },
        Shape::Convex { vertices, len } => {
            if len < 4 || len as usize > MAX_CONVEX_VERTICES {
                return Err(GeomError::Malformed);
            }
            Ok(convex_points(&vertices, len, pose))
        },
        _ => Err(GeomError::Unsupported),
    }
}

/// Edge `i` of a point sequence: `s[i+1] - s[i]` (wrapping).
pub open spec fn edge(s: Seq<IVec3>, i: int) -> IVec3 {
    wsub(s[i + 1], s[i])
}

/// Cross product clamped into the `i32` range per entry.
pub open spec fn spec_cross_plain(a: IVec3, b: IVec3) -> IVec3 {
    IVec3 {
        x: clamp_int(a.y * b.z - a.z * b.y, i32::MIN as int, i32::MAX as int) as i32,
        y: clamp_int(a.z * b.x - a.x * b.z, i32::MIN as int, i32::MAX as int) as i32,
        z: clamp_int(a.x * b.y - a.y * b.x, i32::MIN as int, i32::MAX as int) as i32,
    }
}

fn cross_entry(a: i32, b: i32, c: i32, d: i32) -> (r: i32)
    ensures
        r == clamp_int(a * b - c * d, i32::MIN as int, i32::MAX as int) as i32,
{
    proof {
        lemma_i32_product(a as int, b as int);
        lemma_i32_product(c as int, d as int);
    }
    let v = (a as i128) * (b as i128) - (c as i128) * (d as i128);
    if v < i32::MIN as i128 {
        i32::MIN
    } else if v > i32::MAX as i128 {
        i32::MAX
    } else {
        v as i32
    }
}

fn cross_plain(a: IVec3, b: IVec3) -> (r: IVec3)
    ensures
        r == spec_cross_plain(a, b),
{
    IVec3 {
        x: cross_entry(a.y, b.z, a.z, b.y),
        y: cross_entry(a.z, b.x, a.x, b.z),
        z: cross_entry(a.x, b.y, a.y, b.x),
    }
}

/// Candidate axes: each point of `pa` from its centroid, each point of `pb`
/// from its centroid, then every edge of `pa` crossed with every edge of `pb`
/// (`pa` edge slowest).
pub open spec fn poly_axes(pa: Seq<IVec3>, pb: Seq<IVec3>) -> Seq<IVec3> {
    let ca = spec_centroid(pa);
    let cb = spec_centroid(pb);
    let eb = pb.len() - 1;
    Seq::new(pa.len(), |i: int| wsub(pa[i], ca)) + Seq::new(pb.len(), |i: int| wsub(pb[i], cb))
        + Seq::new(
        ((pa.len() - 1) * eb) as nat,
        |k: int| spec_cross_plain(edge(pa, k / eb), edge(pb, k % eb)),
    )
}

/// Smallest plain projection of a non-empty point sequence onto `n`.
pub open spec fn dot_min(s: Seq<IVec3>, n: IVec3) -> int
    decreases s.len(),
{
    if s.len() <= 1 {
        dot(s[0], n)
    } else {
        let a = dot_min(s.drop_last(), n);
        let b = dot(s.last(), n);
        if b < a {
            b
        } else {
            a
        }
    }
}

/// Largest plain projection of a non-empty point sequence onto `n`.
pub open spec fn dot_max(s: Seq<IVec3>, n: IVec3) -> int
    decreases s.len(),
{
    if s.len() <= 1 {
        dot(s[0], n)
    } else {
        let a = dot_max(s.drop_last(), n);
        let b = dot(s.last(), n);
        if b > a {
            b
        } else {
            a
        }
    }
}

/// Overlap of two point sets along `n` in millimetres (floor of the projected
/// overlap over the integer axis length), or `None` if `n` separates them.
pub open spec fn spec_overlap_slice(a: Seq<IVec3>, b: Seq<IVec3>, n: IVec3) -> Option<i32> {
    let lo = if dot_min(a, n) > dot_min(b, n) {
        dot_min(a, n)
    } else {
        dot_min(b, n)
    };
    let hi = if dot_max(a, n) < dot_max(b, n) {
        dot_max(a, n)
    } else {
        dot_max(b, n)
    };
    let overlap = hi - lo;
    if overlap >= 0 {
        Some(clamp_int(overlap / at_least_one(spec_isqrt(dot(n, n))), 0, i32::MAX as int) as i32)
    } else {
        None
    }
}

proof fn lemma_dot_range(p: IVec3, n: IVec3)
    ensures
        -0xC000_0000_0000_0000 <= dot(p, n) <= 0xC000_0000_0000_0000,
{
    lemma_i32_product(p.x as int, n.x as int);
    lemma_i32_product(p.y as int, n.y as int);
    lemma_i32_product(p.z as int, n.z as int);
}

proof fn lemma_dot_fold_range(s: Seq<IVec3>, n: IVec3)
    requires
        s.len() >= 1,
    ensures
        -0xC000_0000_0000_0000 <= dot_min(s, n) <= 0xC000_0000_0000_0000,
        -0xC000_0000_0000_0000 <= dot_max(s, n) <= 0xC000_0000_0000_0000,
    decreases s.len(),
{
    lemma_dot_range(s.last(), n);
    lemma_dot_range(s[0], n);
    if s.len() > 1 {
        lemma_dot_fold_range(s.drop_last(), n);
    }
}

fn project_slice(s: &[IVec3], n: IVec3) -> (r: (i128, i128))
    requires
        s@.len() >= 1,
    ensures
        r.0 == dot_min(s@, n),
        r.1 == dot_max(s@, n),
{
    let first = dot_wide(s[0], n);
    let mut lo = first;
    let mut hi = first;
    let mut i: usize = 1;
    while i < s.len()
        invariant
            1 <= i <= s@.len(),
            lo == dot_min(s@.take(i as int), n),
            hi == dot_max(s@.take(i as int), n),
        decreases s@.len() - i,
    {
        assert(s@.take(i as int + 1).drop_last() =~= s@.take(i as int));
        let d = dot_wide(s[i], n);
        if d < lo {
            lo = d;
        }
        if d > hi {
            hi = d;
        }
        i = i + 1;
    }
    assert(s@.take(i as int) =~= s@);
    (lo, hi)
}

fn interval_overlap_slice(a: &[IVec3], b: &[IVec3], n: IVec3) -> (r: Option<i32>)
    requires
        a@.len() >= 1,
        b@.len() >= 1,
    ensures
        r == spec_overlap_slice(a@, b@, n),
{
    let (amin, amax) = project_slice(a, n);
    let (bmin, bmax) = project_slice(b, n);
    proof {
        lemma_dot_fold_range(a@, n);
        lemma_dot_fold_range(b@, n);
        lemma_dot_self_range(n);
    }
    let lo = if amin > bmin {
        amin
    } else {
        bmin
    };
    let hi = if amax < bmax {
        amax
    } else {
        bmax
    };
    let overlap = hi - lo;
    if overlap < 0 {
        return None;
    }
    let root = isqrt(dot_wide(n, n));
    let mag: i128 = if root > 1 {
        root as i128
    } else {
        1
    };
    let q: i128 = match overlap.checked_div_euclid(mag) {
        Some(q) => q,
        None => 0,
    };
    proof {
        assert(0 <= q <= overlap) by (nonlinear_arith)
            requires
                q == overlap as int / mag as int,
                overlap >= 0,
                mag >= 1,
        {
        }
    }
    let c: i128 = if q > i32::MAX as i128 {
        i32::MAX as i128
    } else {
        q
    };
    Some(c as i32)
}

/// Lexicographic key order `(p . dir, x, y, z)`: `p` is at least `q`.
pub open spec fn key_ge(p: IVec3, q: IVec3, dir: IVec3) -> bool {
    let dp = dot(p, dir);
    let dq = dot(q, dir);
    dp > dq || (dp == dq && (p.x > q.x || (p.x == q.x && (p.y > q.y || (p.y == q.y && p.z >= q.z)))))
}

/// The point of a non-empty sequence with the greatest key; the last such
/// point on ties.
pub open spec fn spec_support(s: Seq<IVec3>, dir: IVec3) -> IVec3
    decreases s.len(),
{
    if s.len() <= 1 {
        s[0]
    } else {
        let best = spec_support(s.drop_last(), dir);
        if key_ge(s.last(), best, dir) {
            s.last()
        } else {
            best
        }
    }
}

fn support(s: &[IVec3], dir: IVec3) -> (r: IVec3)
    requires
        s@.len() >= 1,
    ensures
        r == spec_support(s@, dir),
{
    let mut best = s[0];
    let mut best_d = dot_wide(best, dir);
    let mut i: usize = 1;
    while i < s.len()
        invariant
            1 <= i <= s@.len(),
            best == spec_support(s@.take(i as int), dir),
            best_d == dot(best, dir),
        decreases s@.len() - i,
    {
        assert(s@.take(i as int + 1).drop_last() =~= s@.take(i as int));
        let p = s[i];
        let d = dot_wide(p, dir);
        let ge = d > best_d || (d == best_d && (p.x > best.x || (p.x == best.x && (p.y > best.y || (
        p.y == best.y && p.z >= best.z)))));
        if ge {
            best = p;
            best_d = d;
        }
        i = i + 1;
    }
    assert(s@.take(i as int) =~= s@);
    best
}

/// Running state: shallowest depth, its axis and its feature (axis index).
pub type PolyState = (i32, IVec3, u16);

/// State after the first `k` candidate axes; axes with `l1 < 2` are skipped,
/// and `None` once an axis separates.
pub open spec fn poly_fold(axes: Seq<IVec3>, pa: Seq<IVec3>, pb: Seq<IVec3>, k: nat) -> Option<
    PolyState,
>
    decreases k,
{
    if k == 0 {
        Some((i32::MAX, IVec3::spec_zero(), 0u16))
    } else {
        match poly_fold(axes, pa, pb, (k - 1) as nat) {
            None => None,
            Some(st) => {
                let i = k - 1;
                if l1(axes[i]) < 2 {
                    Some(st)
                } else {
                    match spec_overlap_slice(pa, pb, axes[i]) {
                        None => None,
                        Some(d) => if d < st.0 {
                            Some((d, axes[i], i as u16))
                        } else {
                            Some(st)
                        },
                    }
                }
            },
        }
    }
}

/// Contact of two point clouds by the separating-axis test over
/// [`poly_axes`]: `Ok(None)` when an axis separates; `Malformed` when no axis
/// was usable; otherwise the shallowest overlap, its axis as the normal
/// (from `b` toward `a`), the midpoint of the two support points, and the
/// axis index as feature.
pub open spec fn spec_poly_contact(pa: Seq<IVec3>, pb: Seq<IVec3>) -> Result<
    Option<QuantizedContact>,
    GeomError,
> {
    let axes = poly_axes(pa, pb);
    match poly_fold(axes, pa, pb, axes.len()) {
        None => Ok(None),
        Some(st) => if st.1 == IVec3::spec_zero() {
            Err(GeomError::Malformed)
        } else {
            let ca = spec_centroid(pa);
            let cb = spec_centroid(pb);
            let sign = if dot(wsub(ca, cb), st.1) >= 0 {
                1int
            } else {
                -1int
            };
            Ok(
                Some(
                    QuantizedContact {
                        point: spec_midpoint(
                            spec_support(pa, wneg(st.1)),
                            spec_support(pb, st.1),
                        ),
                        normal: spec_pack_normal(st.1, sign),
                        depth_mm: st.0,
                        feature: st.2,
                    },
                ),
            )
        },
    }
}

/// Contact of a box or convex hull with a box or convex hull.
pub open spec fn spec_convex_poly_contact(a: Shape, pose_a: PoseMm, b: Shape, pose_b: PoseMm) -> Result<
    Option<QuantizedContact>,
    GeomError,
> {
    match spec_poly_points(a, pose_a) {
        Err(e) => Err(e),
        Ok(pa) => match spec_poly_points(b, pose_b) {
            Err(e) => Err(e),
            Ok(pb) => spec_poly_contact(pa, pb),
        },
    }
}

/// Once an axis separates, every longer search reports separation.
proof fn lemma_poly_fold_none(axes: Seq<IVec3>, pa: Seq<IVec3>, pb: Seq<IVec3>, k: nat, m: nat)
    requires
        k <= m,
        poly_fold(axes, pa, pb, k) is None,
    ensures
        poly_fold(axes, pa, pb, m) is None,
    decreases m,
{
    if m > k {
        lemma_poly_fold_none(axes, pa, pb, k, (m - 1) as nat);
    }
}

/// Candidate axes of two point clouds, in [`poly_axes`] order.
fn build_axes(pa: &Vec<IVec3>, pb: &Vec<IVec3>) -> (r: Vec<IVec3>)
    requires
        4 <= pa@.len() <= MAX_CONVEX_VERTICES,
        4 <= pb@.len() <= MAX_CONVEX_VERTICES,
    ensures
        r@ == poly_axes(pa@, pb@),
{
    let ca = centroid(pa.as_slice());
    let cb = centroid(pb.as_slice());
    let mut axes: Vec<IVec3> = Vec::new();
    let mut i: usize = 0;
    while i < pa.len()
        invariant
            0 <= i <= pa@.len(),
            ca == spec_centroid(pa@),
            axes@ =~= Seq::new(i as nat, |j: int| wsub(pa@[j], ca)),
        decreases pa@.len() - i,
    {
        axes.push(pa[i].wrapping_sub(ca));
        i = i + 1;
    }
    let ghost head = axes@;
    let mut j: usize = 0;
    while j < pb.len()
        invariant
            0 <= j <= pb@.len(),
            cb == spec_centroid(pb@),
            head == Seq::new(pa@.len(), |k: int| wsub(pa@[k], ca)),
            axes@ =~= head + Seq::new(j as nat, |k: int| wsub(pb@[k], cb)),
        decreases pb@.len() - j,
    {
        axes.push(pb[j].wrapping_sub(cb));
        j = j + 1;
    }
    let ghost mid = axes@;
    let na = pa.len() - 1;
    let nb = pb.len() - 1;
    let mut a: usize = 0;
    while a < na
        invariant
            na == pa@.len() - 1,
            nb == pb@.len() - 1,
            3 <= na < MAX_CONVEX_VERTICES,
            3 <= nb < MAX_CONVEX_VERTICES,
            0 <= a <= na,
            axes@ =~= mid + Seq::new(
                (a * nb) as nat,
                |k: int| spec_cross_plain(edge(pa@, k / nb as int), edge(pb@, k % nb as int)),
            ),
        decreases na - a,
    {
        let ea = pa[a + 1].wrapping_sub(pa[a]);
        let mut b: usize = 0;
        while b < nb
            invariant
                na == pa@.len() - 1,
                nb == pb@.len() - 1,
                3 <= na < MAX_CONVEX_VERTICES,
                3 <= nb < MAX_CONVEX_VERTICES,
                0 <= a < na,
                0 <= b <= nb,
                ea == edge(pa@, a as int),
                axes@ =~= mid + Seq::new(
                    (a * nb + b) as nat,
                    |k: int| spec_cross_plain(edge(pa@, k / nb as int), edge(pb@, k % nb as int)),
                ),
            decreases nb - b,
        {
            let eb = pb[b + 1].wrapping_sub(pb[b]);
            proof {
                let k = (a * nb + b) as int;
                assert(k / nb as int == a as int && k % nb as int == b as int) by (nonlinear_arith)
                    requires
                        k == a * nb + b,
                        0 <= b < nb,
                        0 <= a,
                {
                }
            }
            axes.push(cross_plain(ea, eb));
            b = b + 1;
        }
        proof {
            assert((a * nb + nb) == (a + 1) * nb) by (nonlinear_arith);
        }
        a = a + 1;
    }
    axes
}

/// Contact of two point clouds of 4 to 16 points each.
pub fn poly_contact(pa: &Vec<IVec3>, pb: &Vec<IVec3>) -> (r: Result<Option<QuantizedContact>, GeomError>)
    requires
        4 <= pa@.len() <= MAX_CONVEX_VERTICES,
        4 <= pb@.len() <= MAX_CONVEX_VERTICES,
    ensures
        r == spec_poly_contact(pa@, pb@),
{
    let axes = build_axes(pa, pb);
    proof {
        assert(axes@.len() <= 16 + 16 + 15 * 15) by (nonlinear_arith)
            requires
                axes@.len() == pa@.len() + pb@.len() + (pa@.len() - 1) * (pb@.len() - 1),
                pa@.len() <= 16,
                pb@.len() <= 16,
                pa@.len() >= 1,
                pb@.len() >= 1,
        {
        }
    }
    let mut best_depth = i32::MAX;
    let mut best_axis = IVec3::zero();
    let mut best_feature: u16 = 0;
    let mut i: usize = 0;
    while i < axes.len()
        invariant
            0 <= i <= axes@.len(),
            axes@.len() <= 257,
            axes@ == poly_axes(pa@, pb@),
            4 <= pa@.len() <= MAX_CONVEX_VERTICES,
            4 <= pb@.len() <= MAX_CONVEX_VERTICES,
            poly_fold(axes@, pa@, pb@, i as nat) == Some::<PolyState>(
                (best_depth, best_axis, best_feature),
            ),
        decreases axes@.len() - i,
    {
        let axis = axes[i];
        if l1_exec(axis) < 2 {
            i = i + 1;
            continue;
        }
        match interval_overlap_slice(pa.as_slice(), pb.as_slice(), axis) {
            None => {
                proof {
                    lemma_poly_fold_none(axes@, pa@, pb@, (i + 1) as nat, axes@.len());
                }
                return Ok(None);
            },
            Some(depth) => {
                if depth < best_depth {
                    best_depth = depth;
                    best_axis = axis;
                    best_feature = i as u16;
                }
            },
        }
        i = i + 1;
    }
    if best_axis == IVec3::zero() {
        return Err(GeomError::Malformed);
    }
    let ca = centroid(pa.as_slice());
    let cb = centroid(pb.as_slice());
    let sign: i64 = if dot_wide(ca.wrapping_sub(cb), best_axis) >= 0 {
        1
    } else {
        -1
    };
    Ok(
        Some(
            QuantizedContact {
                point: midpoint(
                    support(pa.as_slice(), neg(best_axis)),
                    support(pb.as_slice(), best_axis),
                ),
                normal: pack_normal(best_axis, sign),
                depth_mm: best_depth,
                feature: best_feature,
            },
        ),
    )
}

/// Contact of a box or convex hull with a box or convex hull.
pub fn convex_poly_contact(a: Shape, pose_a: PoseMm, b: Shape, pose_b: PoseMm) -> (r: Result<
    Option<QuantizedContact>,
    GeomError,
>)
    ensures
        r == spec_convex_poly_contact(a, pose_a, b, pose_b),
{
    let pa = match poly_points(a, pose_a) {
        Ok(v) => v,
        Err(e) => return Err(e),
    };
    let pb = match poly_points(b, pose_b) {
        Ok(v) => v,
        Err(e) => return Err(e),
    };
    poly_contact(&pa, &pb)
}

} // verus!

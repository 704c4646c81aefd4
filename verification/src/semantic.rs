//! Bounded inward sampling of semantic swept capsules. Broad-phase boxes
//! never establish a gameplay hit; an integer ball inside the swept capsule
//! does.
use vstd::prelude::*;

use crate::arith::{abs_int, tdiv, div_trunc};
use crate::collide::{compound_flag, contact, spec_contact};
use crate::contact::SweepSample;
use crate::physics::PoseMm;
use crate::query::{bounds, compose_pose, posed_point, posed_seq, spec_bounds, spec_compose};
use crate::shape::{CompoundPart, GeomError, Shape, MAX_COMPOUND_PARTS, MAX_CONVEX_VERTICES};
use crate::space::IVec3;
use crate::units::{Mm, YawMd};

verus! {

/// Maximum narrow-phase samples per channel/target interval.
pub const MAX_SWEEP_SAMPLES: u32 = 65_536;

/// Maximum spacing along time and the capsule segment, millimetres per axis.
pub const SWEEP_SPACING_MM: i64 = 5;

/// Largest ball radius the exact ball/convex test admits (`i128` products).
pub open spec fn ball_radius_reach() -> int {
    0x80_0000
}

/// Chebyshev distance.
pub open spec fn spec_distance(a: IVec3, b: IVec3) -> int {
    let dx = abs_int(a.x - b.x);
    let dy = abs_int(a.y - b.y);
    let dz = abs_int(a.z - b.z);
    let m = if dx > dy {
        dx
    } else {
        dy
    };
    if m > dz {
        m
    } else {
        dz
    }
}

fn abs_i64(x: i64) -> (r: i64)
    requires
        x > i64::MIN,
    ensures
        r == abs_int(x as int),
{
    if x < 0 {
        -x
    } else {
        x
    }
}

fn distance(a: IVec3, b: IVec3) -> (r: i64)
    ensures
        r == spec_distance(a, b),
        0 <= r <= 0x1_0000_0000,
{
    let dx = abs_i64(a.x as i64 - b.x as i64);
    let dy = abs_i64(a.y as i64 - b.y as i64);
    let dz = abs_i64(a.z as i64 - b.z as i64);
    let m = if dx > dy {
        dx
    } else {
        dy
    };
    if m > dz {
        m
    } else {
        dz
    }
}

/// `a + (b - a) * n / d` per axis (truncated), cast to `i32`.
pub open spec fn spec_lerp(a: IVec3, b: IVec3, n: int, d: int) -> IVec3 {
    IVec3 {
        x: (a.x + tdiv((b.x - a.x) * n, d)) as i32,
        y: (a.y + tdiv((b.y - a.y) * n, d)) as i32,
        z: (a.z + tdiv((b.z - a.z) * n, d)) as i32,
    }
}

fn lerp_coord(a: i32, b: i32, n: u32, d: u32) -> (r: i32)
    requires
        n <= 0xFFFF,
        d >= 1,
    ensures
        r == (a + tdiv((b - a) * n, d as int)) as i32,
{
    let diff = (b as i64) - (a as i64);
    proof {
        assert(-0x1_0000_0000_0000 <= diff * n <= 0x1_0000_0000_0000) by (nonlinear_arith)
            requires
                -0x1_0000_0000 <= diff <= 0x1_0000_0000,
                0 <= n <= 0xFFFF,
        {
        }
    }
    let q = div_trunc(diff * (n as i64), d as i64);
    proof {
        assert(-0x1_0000_0000_0000 <= q <= 0x1_0000_0000_0000);
    }
    ((a as i64) + q) as i32
}

fn lerp(a: IVec3, b: IVec3, n: u32, d: u32) -> (r: IVec3)
    requires
        n <= 0xFFFF,
        d >= 1,
    ensures
        r == spec_lerp(a, b, n as int, d as int),
{
    IVec3 { x: lerp_coord(a.x, b.x, n, d), y: lerp_coord(a.y, b.y, n, d), z: lerp_coord(a.z, b.z, n, d) }
}

/// Number of 5 mm steps covering distance `d`, at least one.
pub open spec fn steps(d: int) -> int {
    let s = (d + 4) / 5;
    if s > 1 {
        s
    } else {
        1
    }
}

/// Time and segment step counts of an interval whose capsule end points are
/// `ends[time][end]`, or `Malformed` when either exceeds `u16` or the sample
/// grid exceeds [`MAX_SWEEP_SAMPLES`].
pub open spec fn spec_counts(ends: [[IVec3; 2]; 2]) -> Result<(u32, u32), GeomError> {
    let e00 = ends@[0]@[0];
    let e01 = ends@[0]@[1];
    let e10 = ends@[1]@[0];
    let e11 = ends@[1]@[1];
    let dt = if spec_distance(e00, e10) > spec_distance(e01, e11) {
        spec_distance(e00, e10)
    } else {
        spec_distance(e01, e11)
    };
    let ds = if spec_distance(e00, e01) > spec_distance(e10, e11) {
        spec_distance(e00, e01)
    } else {
        spec_distance(e10, e11)
    };
    let time = steps(dt);
    let segment = steps(ds);
    if time > 0xFFFF || segment > 0xFFFF || (time + 1) * (segment + 1) > MAX_SWEEP_SAMPLES {
        Err(GeomError::Malformed)
    } else {
        Ok((time as u32, segment as u32))
    }
}

fn steps_exec(d: i64) -> (r: u32)
    requires
        0 <= d <= 0x1_0000_0000,
    ensures
        r == steps(d as int),
{
    let s = (d + SWEEP_SPACING_MM - 1) / SWEEP_SPACING_MM;
    if s > 1 {
        s as u32
    } else {
        1
    }
}

fn counts(ends: [[IVec3; 2]; 2]) -> (r: Result<(u32, u32), GeomError>)
    ensures
        r == spec_counts(ends),
        r is Ok ==> 1 <= r->Ok_0.0 <= 0xFFFF && 1 <= r->Ok_0.1 <= 0xFFFF && (r->Ok_0.0 + 1) * (
        r->Ok_0.1 + 1) <= MAX_SWEEP_SAMPLES,
{
    let e00 = ends[0][0];
    let e01 = ends[0][1];
    let e10 = ends[1][0];
    let e11 = ends[1][1];
    let a = distance(e00, e10);
    let b = distance(e01, e11);
    let time = steps_exec(if a > b {
        a
    } else {
        b
    });
    let c = distance(e00, e01);
    let d = distance(e10, e11);
    let segment = steps_exec(if c > d {
        c
    } else {
        d
    });
    if time > 0xFFFF || segment > 0xFFFF {
        return Err(GeomError::Malformed);
    }
    proof {
        assert((time + 1) * (segment + 1) <= 0x1_0000_0000) by (nonlinear_arith)
            requires
                1 <= time + 1 <= 0x1_0000,
                1 <= segment + 1 <= 0x1_0000,
        {
        }
    }
    let total = ((time + 1) as u64) * ((segment + 1) as u64);
    if total > MAX_SWEEP_SAMPLES as u64 {
        return Err(GeomError::Malformed);
    }
    Ok((time, segment))
}

/// Samples charged for an interval: `(time + 1) * (segment + 1)`.
pub open spec fn spec_sample_count(ends: [[IVec3; 2]; 2]) -> Result<u32, GeomError> {
    match spec_counts(ends) {
        Ok((t, s)) => Ok(((t + 1) * (s + 1)) as u32),
        Err(e) => Err(e),
    }
}

/// Maximum number of narrow-phase samples charged for an interval.
pub fn semantic_sample_count(ends: [[IVec3; 2]; 2]) -> (r: Result<u32, GeomError>)
    ensures
        r == spec_sample_count(ends),
{
    let (time, segment) = match counts(ends) {
        Ok(v) => v,
        Err(e) => return Err(e),
    };
    Ok((time + 1) * (segment + 1))
}

/// `(b - a) * n` divisible by `d` on every axis: the lerp is exact.
pub open spec fn lerp_exact(a: IVec3, b: IVec3, n: int, d: int) -> bool {
    ((b.x - a.x) * n) % d == 0 && ((b.y - a.y) * n) % d == 0 && ((b.z - a.z) * n) % d == 0
}

fn lerp_exact_exec(a: IVec3, b: IVec3, n: u32, d: u32) -> (r: bool)
    requires
        n <= 0xFFFF,
        d >= 1,
    ensures
        r == lerp_exact(a, b, n as int, d as int),
{
    let dx = (b.x as i64) - (a.x as i64);
    let dy = (b.y as i64) - (a.y as i64);
    let dz = (b.z as i64) - (a.z as i64);
    proof {
        assert(-0x1_0000_0000_0000 <= dx * n <= 0x1_0000_0000_0000) by (nonlinear_arith)
            requires
                -0x1_0000_0000 <= dx <= 0x1_0000_0000,
                0 <= n <= 0xFFFF,
        {
        }
        assert(-0x1_0000_0000_0000 <= dy * n <= 0x1_0000_0000_0000) by (nonlinear_arith)
            requires
                -0x1_0000_0000 <= dy <= 0x1_0000_0000,
                0 <= n <= 0xFFFF,
        {
        }
        assert(-0x1_0000_0000_0000 <= dz * n <= 0x1_0000_0000_0000) by (nonlinear_arith)
            requires
                -0x1_0000_0000 <= dz <= 0x1_0000_0000,
                0 <= n <= 0xFFFF,
        {
        }
    }
    let m = d as i64;
    let rx = match (dx * (n as i64)).checked_rem_euclid(m) {
        Some(v) => v,
        None => 1,
    };
    let ry = match (dy * (n as i64)).checked_rem_euclid(m) {
        Some(v) => v,
        None => 1,
    };
    let rz = match (dz * (n as i64)).checked_rem_euclid(m) {
        Some(v) => v,
        None => 1,
    };
    rx == 0 && ry == 0 && rz == 0
}

/// The ball tested for one sample: the capsule centre line lerped in time,
/// then along the segment, shrunk by 4 mm unless every lerp was exact.
/// `None` when the shrunk radius vanishes; `Malformed` for a non-positive
/// radius or an out-of-range sample.
pub open spec fn spec_sample_ball(
    ends: [[IVec3; 2]; 2],
    radius: i32,
    sample: SweepSample,
    time: u32,
    segment: u32,
) -> Result<Option<Shape>, GeomError> {
    if radius <= 0 || sample.time > time || sample.segment > segment {
        Err(GeomError::Malformed)
    } else {
        let e00 = ends@[0]@[0];
        let e01 = ends@[0]@[1];
        let e10 = ends@[1]@[0];
        let e11 = ends@[1]@[1];
        let a = spec_lerp(e00, e10, sample.time as int, time as int);
        let b = spec_lerp(e01, e11, sample.time as int, time as int);
        let shrink: i32 = if lerp_exact(e00, e10, sample.time as int, time as int) && lerp_exact(
            e01,
            e11,
            sample.time as int,
            time as int,
        ) && lerp_exact(a, b, sample.segment as int, segment as int) {
            0
        } else {
            4
        };
        if radius <= shrink {
            Ok(None)
        } else {
            Ok(
                Some(
                    Shape::Sphere {
                        local_center: spec_lerp(a, b, sample.segment as int, segment as int),
                        radius_mm: (radius - shrink) as i32,
                    },
                ),
            )
        }
    }
}

fn sample_ball(ends: [[IVec3; 2]; 2], radius: i32, sample: SweepSample, time: u32, segment: u32) -> (r: Result<
    Option<Shape>,
    GeomError,
>)
    requires
        1 <= time <= 0xFFFF,
        1 <= segment <= 0xFFFF,
    ensures
        r == spec_sample_ball(ends, radius, sample, time, segment),
{
    if radius <= 0 || sample.time as u32 > time || sample.segment as u32 > segment {
        return Err(GeomError::Malformed);
    }
    let e00 = ends[0][0];
    let e01 = ends[0][1];
    let e10 = ends[1][0];
    let e11 = ends[1][1];
    let t = sample.time as u32;
    let s = sample.segment as u32;
    let a = lerp(e00, e10, t, time);
    let b = lerp(e01, e11, t, time);
    let shrink: i32 = if lerp_exact_exec(e00, e10, t, time) && lerp_exact_exec(e01, e11, t, time)
        && lerp_exact_exec(a, b, s, segment) {
        0
    } else {
        4
    };
    if radius <= shrink {
        return Ok(None);
    }
    match Shape::sphere(lerp(a, b, s, segment), radius - shrink) {
        Ok(ball) => Ok(Some(ball)),
        Err(e) => Err(e),
    }
}

/// Exact integer vector difference.
pub open spec fn wv(a: IVec3, b: IVec3) -> (int, int, int) {
    (a.x - b.x, a.y - b.y, a.z - b.z)
}

/// Integer dot product of triples.
pub open spec fn wdot(a: (int, int, int), b: (int, int, int)) -> int {
    a.0 * b.0 + a.1 * b.1 + a.2 * b.2
}

/// Integer cross product of triples.
pub open spec fn wcross(a: (int, int, int), b: (int, int, int)) -> (int, int, int) {
    (a.1 * b.2 - a.2 * b.1, a.2 * b.0 - a.0 * b.2, a.0 * b.1 - a.1 * b.0)
}

/// Outward normal of the face `(a, b, c)` of the hull `vs`: `None` when the
/// triangle is degenerate or the plane cuts the hull (or holds all of it).
pub open spec fn face_normal(vs: Seq<IVec3>, a: IVec3, b: IVec3, c: IVec3) -> Option<(int, int, int)> {
    let n = wcross(wv(b, a), wv(c, a));
    if wdot(n, n) == 0 {
        None
    } else {
        let pos = exists|q: int| 0 <= q < vs.len() && #[trigger] wdot(wv(vs[q], a), n) > 0;
        let neg = exists|q: int| 0 <= q < vs.len() && #[trigger] wdot(wv(vs[q], a), n) < 0;
        if (pos && neg) || (!pos && !neg) {
            None
        } else if pos {
            Some((-n.0, -n.1, -n.2))
        } else {
            Some(n)
        }
    }
}

/// The ball reaches the edge `a -> b`: its nearest point lies within `r2`.
pub open spec fn edge_hit(p: IVec3, r2: int, a: IVec3, b: IVec3) -> bool {
    let edge = wv(b, a);
    let delta = wv(p, a);
    let den = wdot(edge, edge);
    let t = wdot(delta, edge);
    if den == 0 || t <= 0 {
        wdot(delta, delta) <= r2
    } else if t >= den {
        wdot(wv(p, b), wv(p, b)) <= r2
    } else {
        wdot(delta, delta) * den - t * t <= r2 * den
    }
}

/// The ball reaches the face: its centre projects into the triangle within
/// the radius of the plane, or it reaches one of the three edges.
pub open spec fn face_hit(p: IVec3, r2: int, a: IVec3, b: IVec3, c: IVec3, n: (int, int, int)) -> bool {
    let plane = wdot(wv(p, a), n);
    let s0 = wdot(wcross(wv(b, a), wv(p, a)), n);
    let s1 = wdot(wcross(wv(c, b), wv(p, b)), n);
    let s2 = wdot(wcross(wv(a, c), wv(p, c)), n);
    let projected = (s0 >= 0 && s1 >= 0 && s2 >= 0) || (s0 <= 0 && s1 <= 0 && s2 <= 0);
    (projected && plane * plane <= r2 * wdot(n, n)) || edge_hit(p, r2, a, b) || edge_hit(p, r2, b, c)
        || edge_hit(p, r2, c, a)
}

/// State of the ball/hull scan: hit found, centre inside every face so
/// far, number of faces seen.
pub type BallState = (bool, bool, int);

/// Scan state after the flattened triple index `m` (`i` slowest); only
/// strictly increasing triples are faces.
pub open spec fn ball_fold(p: IVec3, r2: int, vs: Seq<IVec3>, m: nat) -> BallState
    decreases m,
{
    if m == 0 {
        (false, true, 0)
    } else {
        let st = ball_fold(p, r2, vs, (m - 1) as nat);
        let q = m - 1;
        let n = vs.len() as int;
        let i = q / (n * n);
        let j = (q / n) % n;
        let k = q % n;
        if st.0 || !(i < j && j < k) {
            st
        } else {
            match face_normal(vs, vs[i], vs[j], vs[k]) {
                None => st,
                Some(nrm) => {
                    let inside = st.1 && wdot(wv(p, vs[i]), nrm) <= 0;
                    (face_hit(p, r2, vs[i], vs[j], vs[k], nrm), inside, st.2 + 1)
                },
            }
        }
    }
}

/// Exact integer ball/convex query: the ball reaches some supporting face
/// or edge, or its centre is inside every supporting face.
pub open spec fn spec_ball_convex(p: IVec3, radius: i32, vs: Seq<IVec3>) -> bool {
    let n = vs.len();
    let st = ball_fold(p, radius * radius, vs, n * n * n);
    st.0 || (st.2 > 0 && st.1)
}

/// Vertices within 200 m (Chebyshev) of the ball centre.
pub open spec fn near_centre(vs: Seq<IVec3>, p: IVec3) -> bool {
    forall|q: int| 0 <= q < vs.len() ==> #[trigger] spec_distance(vs[q], p) <= 200_000
}

type W = (i128, i128, i128);

spec fn wview(a: W) -> (int, int, int) {
    (a.0 as int, a.1 as int, a.2 as int)
}

spec fn small(a: (int, int, int), k: int) -> bool {
    -k <= a.0 <= k && -k <= a.1 <= k && -k <= a.2 <= k
}

fn e_sub(a: IVec3, b: IVec3) -> (r: W)
    ensures
        wview(r) == wv(a, b),
{
    ((a.x as i128) - (b.x as i128), (a.y as i128) - (b.y as i128), (a.z as i128) - (b.z as i128))
}

proof fn lemma_mul_small(a: int, b: int, ka: int, kb: int)
    requires
        0 <= ka,
        0 <= kb,
        -ka <= a <= ka,
        -kb <= b <= kb,
    ensures
        -(ka * kb) <= a * b <= ka * kb,
{
    assert(-(ka * kb) <= a * b <= ka * kb) by (nonlinear_arith)
        requires
            0 <= ka,
            0 <= kb,
            -ka <= a <= ka,
            -kb <= b <= kb,
    {
    }
}

proof fn lemma_wdot_bound(a: (int, int, int), b: (int, int, int), ka: int, kb: int)
    requires
        0 <= ka,
        0 <= kb,
        small(a, ka),
        small(b, kb),
    ensures
        -3 * (ka * kb) <= wdot(a, b) <= 3 * (ka * kb),
{
    lemma_mul_small(a.0, b.0, ka, kb);
    lemma_mul_small(a.1, b.1, ka, kb);
    lemma_mul_small(a.2, b.2, ka, kb);
}

fn e_dot(a: W, b: W) -> (r: i128)
    requires
        small(wview(a), 0x100_0000_0000),
        small(wview(b), 0x100_0000_0000),
    ensures
        r == wdot(wview(a), wview(b)),
{
    proof {
        lemma_mul_small(a.0 as int, b.0 as int, 0x100_0000_0000, 0x100_0000_0000);
        lemma_mul_small(a.1 as int, b.1 as int, 0x100_0000_0000, 0x100_0000_0000);
        lemma_mul_small(a.2 as int, b.2 as int, 0x100_0000_0000, 0x100_0000_0000);
    }
    a.0 * b.0 + a.1 * b.1 + a.2 * b.2
}

fn e_cross(a: W, b: W) -> (r: W)
    requires
        small(wview(a), 0x8_0000),
        small(wview(b), 0x8_0000),
    ensures
        wview(r) == wcross(wview(a), wview(b)),
        small(wview(r), 0x80_0000_0000),
{
    proof {
        lemma_mul_small(a.1 as int, b.2 as int, 0x8_0000, 0x8_0000);
        lemma_mul_small(a.2 as int, b.1 as int, 0x8_0000, 0x8_0000);
        lemma_mul_small(a.2 as int, b.0 as int, 0x8_0000, 0x8_0000);
        lemma_mul_small(a.0 as int, b.2 as int, 0x8_0000, 0x8_0000);
        lemma_mul_small(a.0 as int, b.1 as int, 0x8_0000, 0x8_0000);
        lemma_mul_small(a.1 as int, b.0 as int, 0x8_0000, 0x8_0000);
    }
    (a.1 * b.2 - a.2 * b.1, a.2 * b.0 - a.0 * b.2, a.0 * b.1 - a.1 * b.0)
}

fn edge_hit_exec(p: IVec3, r2: i128, a: IVec3, b: IVec3) -> (r: bool)
    requires
        spec_distance(a, p) <= 200_000,
        spec_distance(b, p) <= 200_000,
        0 <= r2 <= 0x4000_0000_0000,
    ensures
        r == edge_hit(p, r2 as int, a, b),
{
    let edge = e_sub(b, a);
    let delta = e_sub(p, a);
    let den = e_dot(edge, edge);
    let t = e_dot(delta, edge);
    proof {
        lemma_wdot_bound(wview(edge), wview(edge), 0x8_0000, 0x8_0000);
        lemma_wdot_bound(wview(delta), wview(edge), 0x8_0000, 0x8_0000);
        lemma_wdot_bound(wview(delta), wview(delta), 0x8_0000, 0x8_0000);
    }
    if den == 0 || t <= 0 {
        e_dot(delta, delta) <= r2
    } else if t >= den {
        let d = e_sub(p, b);
        e_dot(d, d) <= r2
    } else {
        let dd = e_dot(delta, delta);
        proof {
            lemma_mul_small(dd as int, den as int, 0x100_0000_0000, 0x100_0000_0000);
            lemma_mul_small(t as int, t as int, 0x100_0000_0000, 0x100_0000_0000);
            lemma_mul_small(r2 as int, den as int, 0x4000_0000_0000, 0x100_0000_0000);
        }
        dd * den - t * t <= r2 * den
    }
}

fn face_hit_exec(p: IVec3, r2: i128, a: IVec3, b: IVec3, c: IVec3, n: W) -> (r: bool)
    requires
        spec_distance(a, p) <= 200_000,
        spec_distance(b, p) <= 200_000,
        spec_distance(c, p) <= 200_000,
        0 <= r2 <= 0x4000_0000_0000,
        small(wview(n), 0x80_0000_0000),
    ensures
        r == face_hit(p, r2 as int, a, b, c, wview(n)),
{
    let pa = e_sub(p, a);
    let pb = e_sub(p, b);
    let pc = e_sub(p, c);
    let plane = e_dot(pa, n);
    let s0 = e_dot(e_cross(e_sub(b, a), pa), n);
    let s1 = e_dot(e_cross(e_sub(c, b), pb), n);
    let s2 = e_dot(e_cross(e_sub(a, c), pc), n);
    let projected = (s0 >= 0 && s1 >= 0 && s2 >= 0) || (s0 <= 0 && s1 <= 0 && s2 <= 0);
    let n2 = e_dot(n, n);
    proof {
        lemma_wdot_bound(wview(pa), wview(n), 0x8_0000, 0x80_0000_0000);
        lemma_wdot_bound(wview(n), wview(n), 0x80_0000_0000, 0x80_0000_0000);
        lemma_mul_small(plane as int, plane as int, 0x1000_0000_0000_0000, 0x1000_0000_0000_0000);
        lemma_mul_small(r2 as int, n2 as int, 0x4000_0000_0000, 0x1_0000_0000_0000_0000_0000);
    }
    if projected && plane * plane <= r2 * n2 {
        return true;
    }
    edge_hit_exec(p, r2, a, b) || edge_hit_exec(p, r2, b, c) || edge_hit_exec(p, r2, c, a)
}

fn face_normal_exec(vs: &[IVec3], p: IVec3, i: usize, j: usize, k: usize) -> (r: Option<W>)
    requires
        i < vs@.len(),
        j < vs@.len(),
        k < vs@.len(),
        near_centre(vs@, p),
    ensures
        match r {
            None => face_normal(vs@, vs@[i as int], vs@[j as int], vs@[k as int]) is None,
            Some(n) => face_normal(vs@, vs@[i as int], vs@[j as int], vs@[k as int]) == Some(
                wview(n),
            ) && small(wview(n), 0x80_0000_0000),
        },
{
    let a = vs[i];
    let b = vs[j];
    let c = vs[k];
    proof {
        assert(spec_distance(vs@[i as int], p) <= 200_000);
        assert(spec_distance(vs@[j as int], p) <= 200_000);
        assert(spec_distance(vs@[k as int], p) <= 200_000);
    }
    let n = e_cross(e_sub(b, a), e_sub(c, a));
    let n2 = e_dot(n, n);
    if n2 == 0 {
        return None;
    }
    let mut positive = false;
    let mut negative = false;
    let mut q: usize = 0;
    while q < vs.len()
        invariant
            0 <= q <= vs@.len(),
            near_centre(vs@, p),
            a == vs@[i as int],
            spec_distance(a, p) <= 200_000,
            small(wview(n), 0x80_0000_0000),
            positive == exists|t: int| 0 <= t < q && #[trigger] wdot(wv(vs@[t], a), wview(n)) > 0,
            negative == exists|t: int| 0 <= t < q && #[trigger] wdot(wv(vs@[t], a), wview(n)) < 0,
        decreases vs@.len() - q,
    {
        proof {
            assert(spec_distance(vs@[q as int], p) <= 200_000);
        }
        let d = e_dot(e_sub(vs[q], a), n);
        if d > 0 {
            positive = true;
        }
        if d < 0 {
            negative = true;
        }
        q = q + 1;
    }
    if (positive && negative) || (!positive && !negative) {
        return None;
    }
    if positive {
        Some((-n.0, -n.1, -n.2))
    } else {
        Some(n)
    }
}

/// Exact integer ball/convex query.
fn ball_convex(p: IVec3, radius: i32, vs: &[IVec3]) -> (r: bool)
    requires
        1 <= vs@.len() <= MAX_CONVEX_VERTICES,
        0 < radius <= ball_radius_reach(),
        near_centre(vs@, p),
    ensures
        r == spec_ball_convex(p, radius, vs@),
{
    let n = vs.len();
    proof {
        lemma_mul_small(radius as int, radius as int, 0x80_0000, 0x80_0000);
        lemma_mul_small(n as int, n as int, 16, 16);
        lemma_mul_small((n * n) as int, n as int, 256, 16);
        assert(1 <= n * n) by (nonlinear_arith)
            requires
                n >= 1,
        {
        }
    }
    let r2: i128 = (radius as i128) * (radius as i128);
    let nn = n * n;
    let total = nn * n;
    let mut inside = true;
    let mut faces: usize = 0;
    let mut m: usize = 0;
    while m < total
        invariant
            n == vs@.len(),
            1 <= n <= MAX_CONVEX_VERTICES,
            nn == n * n,
            1 <= nn <= 256,
            total == n * n * n,
            0 <= m <= total,
            faces <= m,
            r2 == radius * radius,
            0 <= r2 <= 0x4000_0000_0000,
            near_centre(vs@, p),
            ball_fold(p, r2 as int, vs@, m as nat) == (false, inside, faces as int),
        decreases total - m,
    {
        let i = m / nn;
        let j = (m / n) % n;
        let k = m % n;
        proof {
            assert(i < n) by (nonlinear_arith)
                requires
                    i as int == m as int / (n as int * n as int),
                    m < n * n * n,
                    n >= 1,
            {
            }
        }
        if i < j && j < k {
            match face_normal_exec(vs, p, i, j, k) {
                None => {},
                Some(nrm) => {
                    proof {
                        assert(spec_distance(vs@[i as int], p) <= 200_000);
                        assert(spec_distance(vs@[j as int], p) <= 200_000);
                        assert(spec_distance(vs@[k as int], p) <= 200_000);
                    }
                    let plane = e_dot(e_sub(p, vs[i]), nrm);
                    inside = inside && plane <= 0;
                    faces = faces + 1;
                    if face_hit_exec(p, r2, vs[i], vs[j], vs[k], nrm) {
                        proof {
                            lemma_ball_fold_hit(p, r2 as int, vs@, (m + 1) as nat, total as nat);
                        }
                        return true;
                    }
                },
            }
        }
        m = m + 1;
    }
    faces > 0 && inside
}

/// Once the scan hits, it stays hit.
proof fn lemma_ball_fold_hit(p: IVec3, r2: int, vs: Seq<IVec3>, k: nat, m: nat)
    requires
        k <= m,
        ball_fold(p, r2, vs, k).0,
    ensures
        ball_fold(p, r2, vs, m).0,
    decreases m,
{
    if m > k {
        lemma_ball_fold_hit(p, r2, vs, k, (m - 1) as nat);
    }
}

/// The identity pose at the origin.
pub open spec fn origin_pose() -> PoseMm {
    PoseMm { x: Mm(0), y: Mm(0), z: Mm(0), yaw: YawMd(0), pitch: YawMd(0), roll: YawMd(0) }
}

/// Does the integer ball (a sphere at the origin pose) actually meet `target`
/// at `pose`? Boxes only prune; convex hulls use the exact ball/hull test
/// (their vertices must lie within 200 m of the centre), compounds ask each
/// child in order, other shapes use the contact kernels.
pub open spec fn spec_ball_hits(ball: Shape, target: Shape, pose: PoseMm) -> Result<bool, GeomError>
    decreases compound_flag(target), 9nat,
{
    match ball {
        Shape::Sphere { local_center, radius_mm } => match spec_bounds(ball, origin_pose()) {
            Err(e) => Err(e),
            Ok(bb) => match spec_bounds(target, pose) {
                Err(e) => Err(e),
                Ok(tb) => if !bb.spec_intersects(tb) {
                    Ok(false)
                } else {
                    match target {
                        Shape::Convex { vertices, len } => if len > MAX_CONVEX_VERTICES || len < 4 {
                            Err(GeomError::Malformed)
                        } else {
                            let pts = crate::query::convex_world(vertices, len, pose);
                            if !near_centre(pts, local_center) {
                                Err(GeomError::Malformed)
                            } else {
                                Ok(spec_ball_convex(local_center, radius_mm, pts))
                            }
                        },
                        Shape::Compound { parts, len } => if len == 0 || len > MAX_COMPOUND_PARTS {
                            Err(GeomError::Malformed)
                        } else {
                            parts_hit(ball, parts@, pose, len as nat)
                        },
                        _ => match spec_contact(ball, origin_pose(), target, pose) {
                            Err(e) => Err(e),
                            Ok(c) => Ok(c is Some),
                        },
                    }
                },
            },
        },
        _ => Err(GeomError::Malformed),
    }
}

/// Whether the ball meets one of the first `k` compound children; a child
/// failure fails the whole.
pub open spec fn parts_hit(ball: Shape, parts: Seq<CompoundPart>, pose: PoseMm, k: nat) -> Result<bool, GeomError>
    decreases 1nat, k,
{
    if k == 0 {
        Ok(false)
    } else {
        match parts_hit(ball, parts, pose, (k - 1) as nat) {
            Err(e) => Err(e),
            Ok(true) => Ok(true),
            Ok(false) => spec_ball_hits(
                ball,
                parts[k - 1].shape.spec_as_shape(),
                spec_compose(pose, parts[k - 1].local_pose),
            ),
        }
    }
}

/// A sphere ball of admissible radius.
pub open spec fn ball_ok(ball: Shape) -> bool {
    ball matches Shape::Sphere { radius_mm, .. } ==> 0 < radius_mm <= ball_radius_reach()
}

fn ball_hits(ball: Shape, target: Shape, pose: PoseMm) -> (r: Result<bool, GeomError>)
    requires
        ball_ok(ball),
        target.spec_well_formed(),
    ensures
        r == spec_ball_hits(ball, target, pose),
    decreases compound_flag(target), 9nat,
{
    let (local_center, radius_mm) = match ball {
        Shape::Sphere { local_center, radius_mm } => (local_center, radius_mm),
        _ => return Err(GeomError::Malformed),
    };
    let bb = match bounds(ball, PoseMm::origin()) {
        Ok(b) => b,
        Err(e) => return Err(e),
    };
    let tb = match bounds(target, pose) {
        Ok(b) => b,
        Err(e) => return Err(e),
    };
    if !bb.intersects(tb) {
        return Ok(false);
    }
    match target {
        Shape::Convex { vertices, len } => {
            if len as usize > MAX_CONVEX_VERTICES || len < 4 {
                return Err(GeomError::Malformed);
            }
            let pts = crate::query::convex_points(&vertices, len, pose);
            if !all_near(&pts, local_center) {
                return Err(GeomError::Malformed);
            }
            Ok(ball_convex(local_center, radius_mm, pts.as_slice()))
        },
        Shape::Compound { parts, len } => {
            if len == 0 || len as usize > MAX_COMPOUND_PARTS {
                return Err(GeomError::Malformed);
            }
            parts_hit_exec(ball, parts, len, pose)
        },
        _ => {
            proof {
                assert(ball.spec_well_formed());
            }
            match contact(ball, PoseMm::origin(), target, pose) {
                Err(e) => Err(e),
                Ok(c) => Ok(c.is_some()),
            }
        },
    }
}

fn all_near(pts: &Vec<IVec3>, p: IVec3) -> (r: bool)
    ensures
        r == near_centre(pts@, p),
{
    let mut q: usize = 0;
    while q < pts.len()
        invariant
            0 <= q <= pts@.len(),
            forall|t: int| 0 <= t < q ==> #[trigger] spec_distance(pts@[t], p) <= 200_000,
        decreases pts@.len() - q,
    {
        if distance(pts[q], p) > 200_000 {
            return false;
        }
        q = q + 1;
    }
    true
}

fn parts_hit_exec(ball: Shape, parts: [CompoundPart; MAX_COMPOUND_PARTS], len: u8, pose: PoseMm) -> (r: Result<bool, GeomError>)
    requires
        ball_ok(ball),
        1 <= len <= MAX_COMPOUND_PARTS,
        crate::shape::parts_well_formed(parts),
    ensures
        r == parts_hit(ball, parts@, pose, len as nat),
    decreases 1nat, 8nat,
{
    let n = len as usize;
    let mut i: usize = 0;
    while i < n
        invariant
            0 <= i <= n,
            n == len,
            1 <= n <= MAX_COMPOUND_PARTS,
            ball_ok(ball),
            crate::shape::parts_well_formed(parts),
            parts_hit(ball, parts@, pose, i as nat) == Ok::<bool, GeomError>(false),
        decreases n - i,
    {
        let part = parts[i];
        proof {
            assert(parts@[i as int].shape.spec_well_formed());
        }
        match ball_hits(ball, part.shape.as_shape(), compose_pose(pose, part.local_pose)) {
            Err(e) => {
                proof {
                    lemma_parts_hit_stops(ball, parts@, pose, (i + 1) as nat, n as nat);
                }
                return Err(e);
            },
            Ok(true) => {
                proof {
                    lemma_parts_hit_stops(ball, parts@, pose, (i + 1) as nat, n as nat);
                }
                return Ok(true);
            },
            Ok(false) => {},
        }
        i = i + 1;
    }
    Ok(false)
}

/// A decided child (hit or failure) decides every longer prefix.
proof fn lemma_parts_hit_stops(ball: Shape, parts: Seq<CompoundPart>, pose: PoseMm, k: nat, m: nat)
    requires
        1 <= k <= m,
        parts_hit(ball, parts, pose, k) != Ok::<bool, GeomError>(false),
    ensures
        parts_hit(ball, parts, pose, m) == parts_hit(ball, parts, pose, k),
    decreases m,
{
    if m > k {
        lemma_parts_hit_stops(ball, parts, pose, k, (m - 1) as nat);
    }
}

/// Does the ball of grid sample `(t, s)` meet the target?
#[verifier::opaque]
pub open spec fn sample_hit(
    ends: [[IVec3; 2]; 2],
    radius: i32,
    target: Shape,
    pose: PoseMm,
    time: u32,
    segment: u32,
    t: int,
    s: int,
) -> Result<bool, GeomError> {
    match spec_sample_ball(ends, radius, SweepSample { time: t as u16, segment: s as u16 }, time, segment) {
        Err(e) => Err(e),
        Ok(None) => Ok(false),
        Ok(Some(ball)) => spec_ball_hits(ball, target, pose),
    }
}

/// First hitting sample among the first `k` grid samples in canonical
/// order (time slowest); a failure stops the scan.
pub open spec fn sweep_scan(
    ends: [[IVec3; 2]; 2],
    radius: i32,
    target: Shape,
    pose: PoseMm,
    time: u32,
    segment: u32,
    k: nat,
) -> Result<Option<SweepSample>, GeomError>
    decreases k,
{
    if k == 0 {
        Ok(None)
    } else {
        match sweep_scan(ends, radius, target, pose, time, segment, (k - 1) as nat) {
            Err(e) => Err(e),
            Ok(Some(x)) => Ok(Some(x)),
            Ok(None) => {
                let t = (k - 1) / (segment + 1);
                let s = (k - 1) % (segment + 1);
                match sample_hit(ends, radius, target, pose, time, segment, t, s) {
                    Err(e) => Err(e),
                    Ok(true) => Ok(Some(SweepSample { time: t as u16, segment: s as u16 })),
                    Ok(false) => Ok(None),
                }
            },
        }
    }
}

/// First actual narrow-phase intersection over the whole sample grid.
pub open spec fn spec_semantic_sweep(
    ends: [[IVec3; 2]; 2],
    radius: i32,
    target: Shape,
    pose: PoseMm,
) -> Result<Option<SweepSample>, GeomError> {
    match spec_counts(ends) {
        Err(e) => Err(e),
        Ok((time, segment)) => sweep_scan(
            ends,
            radius,
            target,
            pose,
            time,
            segment,
            ((time + 1) * (segment + 1)) as nat,
        ),
    }
}

fn sample_hit_exec(
    ends: [[IVec3; 2]; 2],
    radius: i32,
    target: Shape,
    pose: PoseMm,
    time: u32,
    segment: u32,
    sample: SweepSample,
) -> (r: Result<bool, GeomError>)
    requires
        1 <= time <= 0xFFFF,
        1 <= segment <= 0xFFFF,
        radius <= ball_radius_reach(),
        target.spec_well_formed(),
    ensures
        r == sample_hit(ends, radius, target, pose, time, segment, sample.time as int, sample.segment as int),
{
    reveal(sample_hit);
    match sample_ball(ends, radius, sample, time, segment) {
        Err(e) => Err(e),
        Ok(None) => Ok(false),
        Ok(Some(ball)) => ball_hits(ball, target, pose),
    }
}

/// A decided scan stays decided.
proof fn lemma_sweep_scan_stops(
    ends: [[IVec3; 2]; 2],
    radius: i32,
    target: Shape,
    pose: PoseMm,
    time: u32,
    segment: u32,
    k: nat,
    m: nat,
)
    requires
        k <= m,
        sweep_scan(ends, radius, target, pose, time, segment, k) != Ok::<
            Option<SweepSample>,
            GeomError,
        >(None),
    ensures
        sweep_scan(ends, radius, target, pose, time, segment, m) == sweep_scan(
            ends,
            radius,
            target,
            pose,
            time,
            segment,
            k,
        ),
    decreases m,
{
    if m > k {
        lemma_sweep_scan_stops(ends, radius, target, pose, time, segment, k, (m - 1) as nat);
    }
}

/// Find the first actual narrow-phase intersection, in canonical sample
/// order. The radius bound (8 km) keeps the exact ball/convex test's `i128`
/// products `radius² · |n|²` in range for every face inside the 200 m
/// vertex cap; those products overflow for radii a few times larger.
/// Query overflow refuses the entire interval.
pub fn semantic_sweep(ends: [[IVec3; 2]; 2], radius: i32, target: Shape, pose: PoseMm) -> (r: Result<
    Option<SweepSample>,
    GeomError,
>)
    requires
        radius <= ball_radius_reach(),
        target.spec_well_formed(),
    ensures
        r == spec_semantic_sweep(ends, radius, target, pose),
{
    let (time, segment) = match counts(ends) {
        Ok(v) => v,
        Err(e) => return Err(e),
    };
    let per = segment + 1;
    let total = (time + 1) * per;
    let mut k: u32 = 0;
    while k < total
        invariant
            1 <= time <= 0xFFFF,
            1 <= segment <= 0xFFFF,
            per == segment + 1,
            spec_counts(ends) == Ok::<(u32, u32), GeomError>((time, segment)),
            total == (time + 1) * (segment + 1),
            total <= MAX_SWEEP_SAMPLES,
            0 <= k <= total,
            radius <= ball_radius_reach(),
            target.spec_well_formed(),
            sweep_scan(ends, radius, target, pose, time, segment, k as nat) == Ok::<
                Option<SweepSample>,
                GeomError,
            >(None),
        decreases total - k,
    {
        let t = k / per;
        let s = k % per;
        proof {
            assert(t <= time) by (nonlinear_arith)
                requires
                    t == k / per,
                    k < (time + 1) * per,
                    per >= 1,
            {
            }
        }
        let sample = SweepSample { time: t as u16, segment: s as u16 };
        assert(sample.time as int == k as int / (segment + 1) && sample.segment as int == k as int % (
        segment + 1));
        let hit = sample_hit_exec(ends, radius, target, pose, time, segment, sample);
        match hit {
            Err(e) => {
                proof {
                    lemma_sweep_scan_stops(ends, radius, target, pose, time, segment, (k + 1) as nat, total as nat);
                }
                return Err(e);
            },
            Ok(true) => {
                proof {
                    lemma_sweep_scan_stops(ends, radius, target, pose, time, segment, (k + 1) as nat, total as nat);
                }
                return Ok(Some(sample));
            },
            Ok(false) => {},
        }
        k = k + 1;
    }
    Ok(None)
}

/// Independent reproduction of one claimed sample.
pub open spec fn spec_verify_semantic_sweep(
    ends: [[IVec3; 2]; 2],
    radius: i32,
    target: Shape,
    pose: PoseMm,
    sample: SweepSample,
) -> Result<bool, GeomError> {
    match spec_counts(ends) {
        Err(e) => Err(e),
        Ok((time, segment)) => match spec_sample_ball(ends, radius, sample, time, segment) {
            Err(e) => Err(e),
            Ok(None) => Ok(false),
            Ok(Some(ball)) => spec_ball_hits(ball, target, pose),
        },
    }
}

/// Independently reproduce the claimed narrow-phase sample (same radius
/// bound as [`semantic_sweep`]).
pub fn verify_semantic_sweep(
    ends: [[IVec3; 2]; 2],
    radius: i32,
    target: Shape,
    pose: PoseMm,
    sample: SweepSample,
) -> (r: Result<bool, GeomError>)
    requires
        radius <= ball_radius_reach(),
        target.spec_well_formed(),
    ensures
        r == spec_verify_semantic_sweep(ends, radius, target, pose, sample),
{
    let (time, segment) = match counts(ends) {
        Ok(v) => v,
        Err(e) => return Err(e),
    };
    match sample_ball(ends, radius, sample, time, segment) {
        Err(e) => Err(e),
        Ok(None) => Ok(false),
        Ok(Some(ball)) => ball_hits(ball, target, pose),
    }
}

} // verus!

//! Integer space types: millimetre vectors, closed boxes, segment queries.
use vstd::prelude::*;

verus! {

/// Integer 3-vector in millimetres. Y is height.
#[derive(Copy, Clone, PartialEq, Eq, Structural, Hash, Debug, Default)]
pub struct IVec3 {
    /// X, millimetres.
    pub x: i32,
    /// Y (height), millimetres.
    pub y: i32,
    /// Z, millimetres.
    pub z: i32,
}

/// Smaller of two integers.
pub open spec fn min_int(a: int, b: int) -> int {
    if a < b {
        a
    } else {
        b
    }
}

/// Larger of two integers.
pub open spec fn max_int(a: int, b: int) -> int {
    if a > b {
        a
    } else {
        b
    }
}

pub(crate) fn min_i32(a: i32, b: i32) -> (r: i32)
    ensures
        r == min_int(a as int, b as int),
{
    if a < b {
        a
    } else {
        b
    }
}

pub(crate) fn max_i32(a: i32, b: i32) -> (r: i32)
    ensures
        r == max_int(a as int, b as int),
{
    if a > b {
        a
    } else {
        b
    }
}

impl IVec3 {
    /// The origin (spec).
    pub open spec fn spec_zero() -> IVec3 {
        IVec3 { x: 0, y: 0, z: 0 }
    }

    /// The origin.
    pub fn zero() -> (r: IVec3)
        ensures
            r == IVec3::spec_zero(),
    {
        IVec3 { x: 0, y: 0, z: 0 }
    }

    /// Construct from components.
    pub open spec fn at(x: i32, y: i32, z: i32) -> IVec3 {
        IVec3 { x, y, z }
    }

    /// Component-wise wrapping add.
    pub fn wrapping_add(self, rhs: IVec3) -> (r: IVec3)
        ensures
            r.x == self.x.wrapping_add(rhs.x),
            r.y == self.y.wrapping_add(rhs.y),
            r.z == self.z.wrapping_add(rhs.z),
    {
        IVec3 {
            x: self.x.wrapping_add(rhs.x),
            y: self.y.wrapping_add(rhs.y),
            z: self.z.wrapping_add(rhs.z),
        }
    }

    /// Component-wise wrapping sub.
    pub fn wrapping_sub(self, rhs: IVec3) -> (r: IVec3)
        ensures
            r.x == self.x.wrapping_sub(rhs.x),
            r.y == self.y.wrapping_sub(rhs.y),
            r.z == self.z.wrapping_sub(rhs.z),
    {
        IVec3 {
            x: self.x.wrapping_sub(rhs.x),
            y: self.y.wrapping_sub(rhs.y),
            z: self.z.wrapping_sub(rhs.z),
        }
    }

    /// Component-wise minimum (spec).
    pub open spec fn spec_min(self, rhs: IVec3) -> IVec3 {
        IVec3 {
            x: min_int(self.x as int, rhs.x as int) as i32,
            y: min_int(self.y as int, rhs.y as int) as i32,
            z: min_int(self.z as int, rhs.z as int) as i32,
        }
    }

    /// Component-wise maximum (spec).
    pub open spec fn spec_max(self, rhs: IVec3) -> IVec3 {
        IVec3 {
            x: max_int(self.x as int, rhs.x as int) as i32,
            y: max_int(self.y as int, rhs.y as int) as i32,
            z: max_int(self.z as int, rhs.z as int) as i32,
        }
    }

    /// Component-wise min.
    pub fn min(self, rhs: IVec3) -> (r: IVec3)
        ensures
            r == self.spec_min(rhs),
    {
        IVec3 { x: min_i32(self.x, rhs.x), y: min_i32(self.y, rhs.y), z: min_i32(self.z, rhs.z) }
    }

    /// Component-wise max.
    pub fn max(self, rhs: IVec3) -> (r: IVec3)
        ensures
            r == self.spec_max(rhs),
    {
        IVec3 { x: max_i32(self.x, rhs.x), y: max_i32(self.y, rhs.y), z: max_i32(self.z, rhs.z) }
    }
}

/// Axis-aligned box in millimetres. Closed on all faces (inclusive min and max).
///
/// Empty iff `min` exceeds `max` on any axis. Edge-touching boxes overlap.
#[derive(Copy, Clone, PartialEq, Eq, Structural, Hash, Debug)]
pub struct AabbMm {
    /// Inclusive minimum corner.
    pub min: IVec3,
    /// Inclusive maximum corner.
    pub max: IVec3,
}

impl AabbMm {
    /// `min` exceeds `max` on some axis.
    pub open spec fn spec_is_empty(self) -> bool {
        self.min.x > self.max.x || self.min.y > self.max.y || self.min.z > self.max.z
    }

    /// Closed containment of a point by a non-empty box.
    pub open spec fn spec_contains(self, p: IVec3) -> bool {
        &&& !self.spec_is_empty()
        &&& self.min.x <= p.x <= self.max.x
        &&& self.min.y <= p.y <= self.max.y
        &&& self.min.z <= p.z <= self.max.z
    }

    /// Closed overlap of two non-empty boxes.
    pub open spec fn spec_intersects(self, other: AabbMm) -> bool {
        &&& !self.spec_is_empty()
        &&& !other.spec_is_empty()
        &&& self.min.x <= other.max.x && other.min.x <= self.max.x
        &&& self.min.y <= other.max.y && other.min.y <= self.max.y
        &&& self.min.z <= other.max.z && other.min.z <= self.max.z
    }

    /// Inclusive union; empty operands are dropped.
    pub open spec fn spec_union(self, other: AabbMm) -> AabbMm {
        if self.spec_is_empty() && other.spec_is_empty() {
            self
        } else if self.spec_is_empty() {
            other
        } else if other.spec_is_empty() {
            self
        } else {
            AabbMm { min: self.min.spec_min(other.min), max: self.max.spec_max(other.max) }
        }
    }

    /// Construct without normalizing.
    pub fn new(min: IVec3, max: IVec3) -> (r: AabbMm)
        ensures
            r.min == min,
            r.max == max,
    {
        AabbMm { min, max }
    }

    /// Sort corners so `min` <= `max` per axis.
    pub fn sorted(a: IVec3, b: IVec3) -> (r: AabbMm)
        ensures
            r.min == a.spec_min(b),
            r.max == a.spec_max(b),
            !r.spec_is_empty(),
    {
        AabbMm { min: a.min(b), max: a.max(b) }
    }

    /// Degenerate point box.
    pub fn from_point(p: IVec3) -> (r: AabbMm)
        ensures
            r.min == p,
            r.max == p,
            !r.spec_is_empty(),
    {
        AabbMm { min: p, max: p }
    }

    /// `true` if `min` exceeds `max` on any axis.
    pub fn is_empty(self) -> (r: bool)
        ensures
            r == self.spec_is_empty(),
    {
        self.min.x > self.max.x || self.min.y > self.max.y || self.min.z > self.max.z
    }

    /// Closed overlap, including shared faces. Empty boxes never overlap.
    pub fn intersects(self, other: AabbMm) -> (r: bool)
        ensures
            r == self.spec_intersects(other),
    {
        if self.is_empty() || other.is_empty() {
            return false;
        }
        self.min.x <= other.max.x && other.min.x <= self.max.x && self.min.y <= other.max.y
            && other.min.y <= self.max.y && self.min.z <= other.max.z && other.min.z
            <= self.max.z
    }

    /// Closed containment of a point.
    pub fn contains_point(self, p: IVec3) -> (r: bool)
        ensures
            r == self.spec_contains(p),
    {
        if self.is_empty() {
            return false;
        }
        self.min.x <= p.x && p.x <= self.max.x && self.min.y <= p.y && p.y <= self.max.y
            && self.min.z <= p.z && p.z <= self.max.z
    }

    /// Inclusive union. Empty operands are dropped.
    pub fn union(self, other: AabbMm) -> (r: AabbMm)
        ensures
            r == self.spec_union(other),
    {
        let se = self.is_empty();
        let oe = other.is_empty();
        if se && oe {
            self
        } else if se {
            other
        } else if oe {
            self
        } else {
            AabbMm { min: self.min.min(other.min), max: self.max.max(other.max) }
        }
    }

    /// Conservative AABB covering `self` and `other` (swept stand-in).
    pub fn swept_union(self, other: AabbMm) -> (r: AabbMm)
        ensures
            r == self.spec_union(other),
    {
        self.union(other)
    }

    /// First hit of the closed segment `origin` -> `origin+dir`, as `(t_num, t_den)`
    /// with `t` in `[0, 1]` and `t_den > 0`. `None` if the segment misses.
    pub fn segment_hit(self, origin: IVec3, dir: IVec3) -> (r: Option<(i64, i64)>)
        ensures
            pair_view(r) == spec_segment_hit(self, origin, dir),
    {
        if self.is_empty() {
            return None;
        }
        if dir == IVec3::zero() {
            if self.contains_point(origin) {
                return Some((0, 1));
            }
            return None;
        }
        let mut t = Slab { tmin_n: 0, tmin_d: 1, tmax_n: 1, tmax_d: 1 };
        if !clip_axis(origin.x, dir.x, self.min.x, self.max.x, &mut t) {
            return None;
        }
        if !clip_axis(origin.y, dir.y, self.min.y, self.max.y, &mut t) {
            return None;
        }
        if !clip_axis(origin.z, dir.z, self.min.z, self.max.z, &mut t) {
            return None;
        }
        if gt_frac(t.tmin_n, t.tmin_d, t.tmax_n, t.tmax_d) {
            return None;
        }
        if gt_frac(t.tmin_n, t.tmin_d, 1, 1) {
            return None;
        }
        if lt_frac(t.tmax_n, t.tmax_d, 0, 1) {
            return None;
        }
        Some((t.tmin_n, t.tmin_d))
    }
}

/// An optional exec pair seen as mathematical integers.
pub open spec fn pair_view(r: Option<(i64, i64)>) -> Option<(int, int)> {
    match r {
        Some((n, d)) => Some((n as int, d as int)),
        None => None,
    }
}

/// Parametric interval `[tmin_n/tmin_d, tmax_n/tmax_d]` of a segment.
pub struct Slab {
    /// Entry numerator.
    pub tmin_n: i64,
    /// Entry denominator (positive).
    pub tmin_d: i64,
    /// Exit numerator.
    pub tmax_n: i64,
    /// Exit denominator (positive).
    pub tmax_d: i64,
}

/// Fraction `n/d` with `d` made positive.
pub open spec fn spec_pos_den(n: int, d: int) -> (int, int) {
    if d < 0 {
        (-n, -d)
    } else {
        (n, d)
    }
}

/// Narrow the slab `t` by one axis. `None` when a zero-direction axis misses.
pub open spec fn spec_clip(o: int, d: int, lo: int, hi: int, t: (int, int, int, int)) -> Option<
    (int, int, int, int),
> {
    if d == 0 {
        if lo <= o && o <= hi {
            Some(t)
        } else {
            None
        }
    } else {
        let eb = if d > 0 {
            lo
        } else {
            hi
        };
        let xb = if d > 0 {
            hi
        } else {
            lo
        };
        let (en, ed) = spec_pos_den(eb - o, d);
        let (xn, xd) = spec_pos_den(xb - o, d);
        let (a, b) = if en * t.1 > t.0 * ed {
            (en, ed)
        } else {
            (t.0, t.1)
        };
        let (c, e) = if xn * t.3 < t.2 * xd {
            (xn, xd)
        } else {
            (t.2, t.3)
        };
        Some((a, b, c, e))
    }
}

/// Slab after clipping against all three axes of `b`.
pub open spec fn spec_slab3(b: AabbMm, o: IVec3, d: IVec3) -> Option<(int, int, int, int)> {
    match spec_clip(o.x as int, d.x as int, b.min.x as int, b.max.x as int, (0, 1, 1, 1)) {
        None => None,
        Some(t1) => match spec_clip(o.y as int, d.y as int, b.min.y as int, b.max.y as int, t1) {
            None => None,
            Some(t2) => spec_clip(o.z as int, d.z as int, b.min.z as int, b.max.z as int, t2),
        },
    }
}

/// First parametric hit of the closed segment `o -> o+d` on the closed box `b`.
pub open spec fn spec_segment_hit(b: AabbMm, o: IVec3, d: IVec3) -> Option<(int, int)> {
    if b.spec_is_empty() {
        None
    } else if d == IVec3::spec_zero() {
        if b.spec_contains(o) {
            Some((0, 1))
        } else {
            None
        }
    } else {
        match spec_slab3(b, o, d) {
            None => None,
            Some(t) => if t.0 * t.3 > t.2 * t.1 || t.0 * 1 > 1 * t.1 || t.2 * 1 < 0 * t.3 {
                None
            } else {
                Some((t.0, t.1))
            },
        }
    }
}

/// Slab bounds kept by [`clip_axis`]: numerators within 2^33, denominators in 1..=2^31.
pub open spec fn slab_bounded(n0: int, d0: int, n1: int, d1: int) -> bool {
    &&& -0x2_0000_0000 <= n0 <= 0x2_0000_0000
    &&& -0x2_0000_0000 <= n1 <= 0x2_0000_0000
    &&& 1 <= d0 <= 0x8000_0000
    &&& 1 <= d1 <= 0x8000_0000
}

fn widen(x: i32) -> (r: i64)
    ensures
        r == x,
{
    x as i64
}

/// Products of two `i64` values fit an `i128`.
pub proof fn lemma_wide_product(a: int, b: int)
    requires
        -0x8000_0000_0000_0000 <= a < 0x8000_0000_0000_0000,
        -0x8000_0000_0000_0000 <= b < 0x8000_0000_0000_0000,
    ensures
        -0x4000_0000_0000_0000_0000_0000_0000_0000 <= a * b <= 0x4000_0000_0000_0000_0000_0000_0000_0000,
{
    let m: int = 0x8000_0000_0000_0000;
    assert(-m <= a <= m && -m <= b <= m);
    assert(a * b <= m * m && a * b >= -(m * m)) by (nonlinear_arith)
        requires
            -m <= a <= m,
            -m <= b <= m,
            m > 0,
    {
    }
    assert(m * m == 0x4000_0000_0000_0000_0000_0000_0000_0000);
}

fn wide_mul(a: i64, b: i64) -> (r: i128)
    ensures
        r == a * b,
{
    proof {
        lemma_wide_product(a as int, b as int);
    }
    (a as i128) * (b as i128)
}

/// `an/ad > bn/bd` by cross multiplication.
fn gt_frac(an: i64, ad: i64, bn: i64, bd: i64) -> (r: bool)
    ensures
        r == (an * bd > bn * ad),
{
    wide_mul(an, bd) > wide_mul(bn, ad)
}

/// `an/ad < bn/bd` by cross multiplication.
fn lt_frac(an: i64, ad: i64, bn: i64, bd: i64) -> (r: bool)
    ensures
        r == (an * bd < bn * ad),
{
    wide_mul(an, bd) < wide_mul(bn, ad)
}

/// Sign of `a - b` as an ordering.
pub open spec fn order_of(a: int, b: int) -> core::cmp::Ordering {
    if a < b {
        core::cmp::Ordering::Less
    } else if a > b {
        core::cmp::Ordering::Greater
    } else {
        core::cmp::Ordering::Equal
    }
}

/// Compare `an/ad` and `bn/bd` with positive denominators.
pub fn frac_cmp(an: i64, ad: i64, bn: i64, bd: i64) -> (r: core::cmp::Ordering)
    ensures
        r == order_of(an * bd, bn * ad),
{
    let l = wide_mul(an, bd);
    let h = wide_mul(bn, ad);
    if l < h {
        core::cmp::Ordering::Less
    } else if l > h {
        core::cmp::Ordering::Greater
    } else {
        core::cmp::Ordering::Equal
    }
}

/// `(n, d)` with the denominator made positive.
pub fn pos_den(n: i64, d: i64) -> (r: (i64, i64))
    requires
        n > i64::MIN,
        d > i64::MIN,
    ensures
        (r.0 as int, r.1 as int) == spec_pos_den(n as int, d as int),
{
    if d < 0 {
        (-n, -d)
    } else {
        (n, d)
    }
}

/// Clip the slab against one axis. `false` when a zero-direction axis misses.
pub fn clip_axis(origin: i32, dir: i32, min: i32, max: i32, t: &mut Slab) -> (r: bool)
    requires
        slab_bounded(old(t).tmin_n as int, old(t).tmin_d as int, old(t).tmax_n as int, old(t).tmax_d as int),
    ensures
        slab_bounded(final(t).tmin_n as int, final(t).tmin_d as int, final(t).tmax_n as int, final(t).tmax_d as int),
        r == spec_clip(origin as int, dir as int, min as int, max as int, (old(t).tmin_n as int, old(t).tmin_d as int, old(t).tmax_n as int, old(t).tmax_d as int)) is Some,
        r ==> spec_clip(origin as int, dir as int, min as int, max as int, (old(t).tmin_n as int, old(t).tmin_d as int, old(t).tmax_n as int, old(t).tmax_d as int))
            == Some((final(t).tmin_n as int, final(t).tmin_d as int, final(t).tmax_n as int, final(t).tmax_d as int)),
{
    if dir == 0 {
        return origin >= min && origin <= max;
    }
    let enter_b = if dir > 0 { min } else { max };
    let exit_b = if dir > 0 { max } else { min };
    let (en, ed) = pos_den(widen(enter_b) - widen(origin), widen(dir));
    let (xn, xd) = pos_den(widen(exit_b) - widen(origin), widen(dir));
    if gt_frac(en, ed, t.tmin_n, t.tmin_d) {
        t.tmin_n = en;
        t.tmin_d = ed;
    }
    if lt_frac(xn, xd, t.tmax_n, t.tmax_d) {
        t.tmax_n = xn;
        t.tmax_d = xd;
    }
    true
}

/// Every point of either operand lies in their union.
pub proof fn lemma_union_covers(a: AabbMm, b: AabbMm, p: IVec3)
    requires
        a.spec_contains(p) || b.spec_contains(p),
    ensures
        a.spec_union(b).spec_contains(p),
{
}

/// Overlap is symmetric.
pub proof fn lemma_intersects_symmetric(a: AabbMm, b: AabbMm)
    ensures
        a.spec_intersects(b) == b.spec_intersects(a),
{
}

/// Two boxes that contain a common point overlap.
pub proof fn lemma_common_point_intersects(a: AabbMm, b: AabbMm, p: IVec3)
    requires
        a.spec_contains(p),
        b.spec_contains(p),
    ensures
        a.spec_intersects(b),
{
}

/// At time `sn / sd` the point `o + d * t` of one axis lies outside `lo..=hi`.
pub open spec fn axis_outside(o: int, d: int, lo: int, hi: int, sn: int, sd: int) -> bool {
    o * sd + d * sn < lo * sd || o * sd + d * sn > hi * sd
}

/// At every time strictly before `n / den` the point of this axis lies
/// outside `lo..=hi`.
pub open spec fn outside_before(o: int, d: int, lo: int, hi: int, n: int, den: int) -> bool {
    forall|sn: int, sd: int| sd > 0 && sn * den < n * sd ==> #[trigger] axis_outside(o, d, lo, hi, sn, sd)
}

/// The point `o + d * (sn / sd)` lies in the closed box `b`.
pub open spec fn point_in_at(b: AabbMm, o: IVec3, d: IVec3, sn: int, sd: int) -> bool {
    &&& !axis_outside(o.x as int, d.x as int, b.min.x as int, b.max.x as int, sn, sd)
    &&& !axis_outside(o.y as int, d.y as int, b.min.y as int, b.max.y as int, sn, sd)
    &&& !axis_outside(o.z as int, d.z as int, b.min.z as int, b.max.z as int, sn, sd)
}

/// Clipping by one axis keeps the entry, or moves it to that axis' entry,
/// before which the point is outside the axis range.
proof fn lemma_clip_entry(o: int, d: int, lo: int, hi: int, t: (int, int, int, int))
    requires
        i32::MIN <= o <= i32::MAX,
        i32::MIN <= d <= i32::MAX,
        i32::MIN <= lo <= i32::MAX,
        i32::MIN <= hi <= i32::MAX,
    ensures
        spec_clip(o, d, lo, hi, t) matches Some(r) ==> (r.0 == t.0 && r.1 == t.1) || (outside_before(
            o,
            d,
            lo,
            hi,
            r.0,
            r.1,
        ) && -0x2_0000_0000 <= r.0 <= 0x2_0000_0000 && 1 <= r.1 <= 0x8000_0000),
{
    if d != 0 {
        let eb = if d > 0 {
            lo
        } else {
            hi
        };
        let (en, ed) = spec_pos_den(eb - o, d);
        assert forall|sn: int, sd: int| sd > 0 && sn * ed < en * sd implies #[trigger] axis_outside(
            o,
            d,
            lo,
            hi,
            sn,
            sd,
        ) by {
            if d > 0 {
                assert(o * sd + d * sn < lo * sd) by (nonlinear_arith)
                    requires
                        sn * d < (lo - o) * sd,
                {
                }
            } else {
                assert(o * sd + d * sn > hi * sd) by (nonlinear_arith)
                    requires
                        sn * (-d) < (-(hi - o)) * sd,
                {
                }
            }
        }
    }
}

/// The entry of a slab is zero or an axis entry before which the point is
/// outside the box on that axis.
pub proof fn lemma_slab3_entry(b: AabbMm, o: IVec3, d: IVec3)
    ensures
        spec_slab3(b, o, d) matches Some(t) ==> -0x2_0000_0000 <= t.0 <= 0x2_0000_0000 && 1 <= t.1 <= 0x8000_0000,
        spec_slab3(b, o, d) matches Some(t) ==> (t.0 == 0 && t.1 == 1) || outside_before(
            o.x as int,
            d.x as int,
            b.min.x as int,
            b.max.x as int,
            t.0,
            t.1,
        ) || outside_before(o.y as int, d.y as int, b.min.y as int, b.max.y as int, t.0, t.1)
            || outside_before(o.z as int, d.z as int, b.min.z as int, b.max.z as int, t.0, t.1),
{
    lemma_clip_entry(o.x as int, d.x as int, b.min.x as int, b.max.x as int, (0, 1, 1, 1));
    if let Some(t1) = spec_clip(o.x as int, d.x as int, b.min.x as int, b.max.x as int, (0, 1, 1, 1)) {
        lemma_clip_entry(o.y as int, d.y as int, b.min.y as int, b.max.y as int, t1);
        if let Some(t2) = spec_clip(o.y as int, d.y as int, b.min.y as int, b.max.y as int, t1) {
            lemma_clip_entry(o.z as int, d.z as int, b.min.z as int, b.max.z as int, t2);
        }
    }
}

/// Before the entry of the slabs, from time zero on, the point is outside the box.
pub proof fn lemma_slab3_outside_before(b: AabbMm, o: IVec3, d: IVec3, sn: int, sd: int)
    requires
        sd > 0,
        sn >= 0,
        spec_slab3(b, o, d) matches Some(t) && sn * t.1 < t.0 * sd,
    ensures
        !point_in_at(b, o, d, sn, sd),
{
    lemma_slab3_entry(b, o, d);
    let t = spec_slab3(b, o, d)->Some_0;
    if t.0 == 0 && t.1 == 1 {
        assert(sn * 1 >= 0 * sd);
    }
}

/// A segment query reports its first hit: at no time from the start of the
/// segment up to (not including) the reported fraction is the moving point
/// inside the box.
pub proof fn lemma_segment_hit_is_first(b: AabbMm, o: IVec3, d: IVec3, sn: int, sd: int)
    requires
        sd > 0,
        sn >= 0,
        spec_segment_hit(b, o, d) matches Some(h) && sn * h.1 < h.0 * sd,
    ensures
        !point_in_at(b, o, d, sn, sd),
{
    if d != IVec3::spec_zero() {
        lemma_slab3_outside_before(b, o, d, sn, sd);
    } else {
        assert(sn * 1 >= 0 * sd);
    }
}

/// Shifting a box and the segment's origin alike leaves each axis clip as it was.
pub proof fn lemma_clip_shift(o: int, d: int, lo: int, hi: int, s: int, t: (int, int, int, int))
    ensures
        spec_clip(o + s, d, lo + s, hi + s, t) == spec_clip(o, d, lo, hi, t),
{
    assert((lo + s) - (o + s) == lo - o);
    assert((hi + s) - (o + s) == hi - o);
}

/// Shifting a box and a segment's origin alike by `s` leaves the segment's hit as it was.
pub proof fn lemma_segment_hit_shift(b: AabbMm, w: AabbMm, o: IVec3, ow: IVec3, d: IVec3, s: IVec3)
    requires
        w.min.x == b.min.x + s.x && w.min.y == b.min.y + s.y && w.min.z == b.min.z + s.z,
        w.max.x == b.max.x + s.x && w.max.y == b.max.y + s.y && w.max.z == b.max.z + s.z,
        ow.x == o.x + s.x && ow.y == o.y + s.y && ow.z == o.z + s.z,
    ensures
        spec_segment_hit(w, ow, d) == spec_segment_hit(b, o, d),
{
    assert(w.spec_is_empty() == b.spec_is_empty());
    assert(w.spec_contains(ow) == b.spec_contains(o));
    lemma_clip_shift(o.x as int, d.x as int, b.min.x as int, b.max.x as int, s.x as int, (0, 1, 1, 1));
    if let Some(t1) = spec_clip(o.x as int, d.x as int, b.min.x as int, b.max.x as int, (0, 1, 1, 1)) {
        lemma_clip_shift(o.y as int, d.y as int, b.min.y as int, b.max.y as int, s.y as int, t1);
        if let Some(t2) = spec_clip(o.y as int, d.y as int, b.min.y as int, b.max.y as int, t1) {
            lemma_clip_shift(o.z as int, d.z as int, b.min.z as int, b.max.z as int, s.z as int, t2);
        }
    }
    assert(spec_slab3(w, ow, d) == spec_slab3(b, o, d));
}

/// At every time from `t.0 / t.1` to `t.2 / t.3` the point of this axis
/// lies in `lo..=hi`.
pub open spec fn inside_between(o: int, d: int, lo: int, hi: int, t: (int, int, int, int)) -> bool {
    forall|sn: int, sd: int|
        sd > 0 && t.0 * sd <= sn * t.1 && sn * t.3 <= t.2 * sd ==> !#[trigger] axis_outside(o, d, lo, hi, sn, sd)
}

/// `c / e <= a / b <= sn / sd` for positive denominators gives `c / e <= sn / sd`.
proof fn lemma_frac_le_trans(c: int, e: int, a: int, b: int, sn: int, sd: int)
    requires
        e > 0,
        b > 0,
        sd > 0,
        c * b <= a * e,
        a * sd <= sn * b,
    ensures
        c * sd <= sn * e,
{
    assert(c * b * sd <= a * e * sd) by (nonlinear_arith)
        requires
            c * b <= a * e,
            sd > 0,
    {
    }
    assert(a * sd * e <= sn * b * e) by (nonlinear_arith)
        requires
            a * sd <= sn * b,
            e > 0,
    {
    }
    assert(b * (c * sd) <= b * (sn * e)) by (nonlinear_arith)
        requires
            c * b * sd <= a * e * sd,
            a * sd * e <= sn * b * e,
    {
    }
    assert(c * sd <= sn * e) by (nonlinear_arith)
        requires
            b * (c * sd) <= b * (sn * e),
            b > 0,
    {
    }
}

/// `sn / sd <= a / b <= c / e` for positive denominators gives `sn / sd <= c / e`.
proof fn lemma_frac_ge_trans(c: int, e: int, a: int, b: int, sn: int, sd: int)
    requires
        e > 0,
        b > 0,
        sd > 0,
        a * e <= c * b,
        sn * b <= a * sd,
    ensures
        sn * e <= c * sd,
{
    assert((-c) * sd == -(c * sd) && (-sn) * e == -(sn * e)) by (nonlinear_arith);
    assert((-c) * b == -(c * b) && (-a) * e == -(a * e)) by (nonlinear_arith);
    assert((-a) * sd == -(a * sd) && (-sn) * b == -(sn * b)) by (nonlinear_arith);
    lemma_frac_le_trans(-c, e, -a, b, -sn, sd);
}

/// A narrower window keeps a point that was inside on an axis inside.
proof fn lemma_inside_narrows(o: int, d: int, lo: int, hi: int, t: (int, int, int, int), r: (int, int, int, int))
    requires
        t.1 > 0,
        t.3 > 0,
        r.1 > 0,
        r.3 > 0,
        t.0 * r.1 <= r.0 * t.1,
        r.2 * t.3 <= t.2 * r.3,
        inside_between(o, d, lo, hi, t),
    ensures
        inside_between(o, d, lo, hi, r),
{
    assert forall|sn: int, sd: int|
        sd > 0 && r.0 * sd <= sn * r.1 && sn * r.3 <= r.2 * sd implies !#[trigger] axis_outside(
        o,
        d,
        lo,
        hi,
        sn,
        sd,
    ) by {
        lemma_frac_le_trans(t.0, t.1, r.0, r.1, sn, sd);
        lemma_frac_ge_trans(t.2, t.3, r.2, r.3, sn, sd);
    }
}

/// Clipping by an axis narrows the window to times at which the point is in
/// that axis' range.
proof fn lemma_clip_inside(o: int, d: int, lo: int, hi: int, t: (int, int, int, int))
    requires
        t.1 > 0,
        t.3 > 0,
    ensures
        spec_clip(o, d, lo, hi, t) matches Some(r) ==> r.1 > 0 && r.3 > 0 && t.0 * r.1 <= r.0 * t.1 && r.2 * t.3
            <= t.2 * r.3 && inside_between(o, d, lo, hi, r),
        t.0 >= 0 ==> (spec_clip(o, d, lo, hi, t) matches Some(r) ==> r.0 >= 0),
{
    if let Some(r) = spec_clip(o, d, lo, hi, t) {
        if t.0 >= 0 && r.1 > 0 && t.0 * r.1 <= r.0 * t.1 {
            assert(r.0 >= 0) by (nonlinear_arith)
                requires
                    t.0 >= 0,
                    r.1 > 0,
                    t.1 > 0,
                    t.0 * r.1 <= r.0 * t.1,
            {
            }
        }
        if d == 0 {
            assert forall|sn: int, sd: int|
                sd > 0 && r.0 * sd <= sn * r.1 && sn * r.3 <= r.2 * sd implies !#[trigger] axis_outside(
                o,
                d,
                lo,
                hi,
                sn,
                sd,
            ) by {
                assert(lo * sd <= o * sd + 0 * sn <= hi * sd) by (nonlinear_arith)
                    requires
                        lo <= o <= hi,
                        sd > 0,
                {
                }
            }
        } else {
            let eb = if d > 0 {
                lo
            } else {
                hi
            };
            let xb = if d > 0 {
                hi
            } else {
                lo
            };
            let (en, ed) = spec_pos_den(eb - o, d);
            let (xn, xd) = spec_pos_den(xb - o, d);
            assert(en * r.1 <= r.0 * ed);
            assert(r.2 * xd <= xn * r.3);
            assert forall|sn: int, sd: int|
                sd > 0 && r.0 * sd <= sn * r.1 && sn * r.3 <= r.2 * sd implies !#[trigger] axis_outside(
                o,
                d,
                lo,
                hi,
                sn,
                sd,
            ) by {
                lemma_frac_le_trans(en, ed, r.0, r.1, sn, sd);
                lemma_frac_ge_trans(xn, xd, r.2, r.3, sn, sd);
                if d > 0 {
                    assert(lo * sd <= o * sd + d * sn <= hi * sd) by (nonlinear_arith)
                        requires
                            (lo - o) * sd <= sn * d,
                            sn * d <= (hi - o) * sd,
                    {
                    }
                } else {
                    assert(lo * sd <= o * sd + d * sn <= hi * sd) by (nonlinear_arith)
                        requires
                            (-(hi - o)) * sd <= sn * (-d),
                            sn * (-d) <= (-(lo - o)) * sd,
                    {
                    }
                }
            }
        }
    }
}

/// The slabs of a box keep a window of times at which the point is in the box.
pub proof fn lemma_slab3_inside(b: AabbMm, o: IVec3, d: IVec3, sn: int, sd: int)
    requires
        sd > 0,
        spec_slab3(b, o, d) matches Some(t) && t.0 * sd <= sn * t.1 && sn * t.3 <= t.2 * sd,
    ensures
        spec_slab3(b, o, d)->Some_0.1 > 0,
        spec_slab3(b, o, d)->Some_0.3 > 0,
        spec_slab3(b, o, d)->Some_0.0 >= 0,
        point_in_at(b, o, d, sn, sd),
{
    let (ox, dx, lx, hx) = (o.x as int, d.x as int, b.min.x as int, b.max.x as int);
    let (oy, dy, ly, hy) = (o.y as int, d.y as int, b.min.y as int, b.max.y as int);
    let (oz, dz, lz, hz) = (o.z as int, d.z as int, b.min.z as int, b.max.z as int);
    let t0 = (0int, 1int, 1int, 1int);
    lemma_clip_inside(ox, dx, lx, hx, t0);
    let t1 = spec_clip(ox, dx, lx, hx, t0)->Some_0;
    lemma_clip_inside(oy, dy, ly, hy, t1);
    let t2 = spec_clip(oy, dy, ly, hy, t1)->Some_0;
    lemma_inside_narrows(ox, dx, lx, hx, t1, t2);
    lemma_clip_inside(oz, dz, lz, hz, t2);
    let t3 = spec_clip(oz, dz, lz, hz, t2)->Some_0;
    lemma_inside_narrows(ox, dx, lx, hx, t2, t3);
    lemma_inside_narrows(oy, dy, ly, hy, t2, t3);
    assert(!axis_outside(ox, dx, lx, hx, sn, sd));
    assert(!axis_outside(oy, dy, ly, hy, sn, sd));
    assert(!axis_outside(oz, dz, lz, hz, sn, sd));
}

/// A segment query's hit is a fraction of the segment, `0 <= n / d <= 1`
/// with `d > 0`, at which the moving point is inside the box.
pub proof fn lemma_segment_hit_inside(b: AabbMm, o: IVec3, d: IVec3)
    ensures
        spec_segment_hit(b, o, d) matches Some(h) ==> h.1 > 0 && 0 <= h.0 <= h.1 && point_in_at(b, o, d, h.0, h.1),
{
    if let Some(h) = spec_segment_hit(b, o, d) {
        if d == IVec3::spec_zero() {
            assert(point_in_at(b, o, d, 0, 1));
        } else {
            let t = spec_slab3(b, o, d)->Some_0;
            lemma_slab3_entry(b, o, d);
            lemma_slab3_inside(b, o, d, t.0, t.1);
        }
    }
}

} // verus!

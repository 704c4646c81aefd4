//! Integer yaw / pitch / roll rotation in 16.16 fixed point.
use vstd::prelude::*;
use crate::space::IVec3;
use crate::units::YawMd;

verus! {

/// 16.16 cosine of a whole degree in `0..=90`. `cos(0) = 1`, `cos(90) = 0`.
pub open spec fn cos_deg_table_u8(d: u8) -> int {
    match d {
        0 => 65536,
        1 => 65526,
        2 => 65496,
        3 => 65446,
        4 => 65376,
        5 => 65287,
        6 => 65177,
        7 => 65048,
        8 => 64898,
        9 => 64729,
        10 => 64540,
        11 => 64332,
        12 => 64104,
        13 => 63856,
        14 => 63589,
        15 => 63303,
        16 => 62997,
        17 => 62672,
        18 => 62328,
        19 => 61966,
        20 => 61584,
        21 => 61183,
        22 => 60764,
        23 => 60326,
        24 => 59870,
        25 => 59396,
        26 => 58903,
        27 => 58393,
        28 => 57865,
        29 => 57319,
        30 => 56756,
        31 => 56175,
        32 => 55578,
        33 => 54963,
        34 => 54332,
        35 => 53684,
        36 => 53020,
        37 => 52339,
        38 => 51643,
        39 => 50931,
        40 => 50203,
        41 => 49461,
        42 => 48703,
        43 => 47930,
        44 => 47143,
        45 => 46341,
        46 => 45525,
        47 => 44695,
        48 => 43852,
        49 => 42995,
        50 => 42126,
        51 => 41243,
        52 => 40348,
        53 => 39441,
        54 => 38521,
        55 => 37590,
        56 => 36647,
        57 => 35693,
        58 => 34729,
        59 => 33754,
        60 => 32768,
        61 => 31772,
        62 => 30767,
        63 => 29753,
        64 => 28729,
        65 => 27697,
        66 => 26656,
        67 => 25607,
        68 => 24550,
        69 => 23486,
        70 => 22415,
        71 => 21336,
        72 => 20252,
        73 => 19161,
        74 => 18064,
        75 => 16962,
        76 => 15855,
        77 => 14742,
        78 => 13626,
        79 => 12505,
        80 => 11380,
        81 => 10252,
        82 => 9121,
        83 => 7987,
        84 => 6850,
        85 => 5712,
        86 => 4572,
        87 => 3430,
        88 => 2287,
        89 => 1144,
        _ => 0,
    }
}

/// 16.16 cosine of a whole degree in `0..=90`; zero elsewhere.
pub open spec fn cos_deg_table(d: int) -> int {
    if 0 <= d <= 90 {
        cos_deg_table_u8(d as u8)
    } else {
        0
    }
}

/// Every table entry lies in `0..=65536`.
pub proof fn lemma_cos_table_range(d: int)
    requires
        0 <= d <= 90,
    ensures
        0 <= cos_deg_table(d) <= 65536,
{
}

/// 16.16 cosine of a whole degree in `0..=90`.
pub fn cos_table(d: usize) -> (r: i32)
    requires
        d <= 90,
    ensures
        r == cos_deg_table(d as int),
        0 <= r <= 65536,
{
    proof {
        lemma_cos_table_range(d as int);
    }
    match d {
        0 => 65536,
        1 => 65526,
        2 => 65496,
        3 => 65446,
        4 => 65376,
        5 => 65287,
        6 => 65177,
        7 => 65048,
        8 => 64898,
        9 => 64729,
        10 => 64540,
        11 => 64332,
        12 => 64104,
        13 => 63856,
        14 => 63589,
        15 => 63303,
        16 => 62997,
        17 => 62672,
        18 => 62328,
        19 => 61966,
        20 => 61584,
        21 => 61183,
        22 => 60764,
        23 => 60326,
        24 => 59870,
        25 => 59396,
        26 => 58903,
        27 => 58393,
        28 => 57865,
        29 => 57319,
        30 => 56756,
        31 => 56175,
        32 => 55578,
        33 => 54963,
        34 => 54332,
        35 => 53684,
        36 => 53020,
        37 => 52339,
        38 => 51643,
        39 => 50931,
        40 => 50203,
        41 => 49461,
        42 => 48703,
        43 => 47930,
        44 => 47143,
        45 => 46341,
        46 => 45525,
        47 => 44695,
        48 => 43852,
        49 => 42995,
        50 => 42126,
        51 => 41243,
        52 => 40348,
        53 => 39441,
        54 => 38521,
        55 => 37590,
        56 => 36647,
        57 => 35693,
        58 => 34729,
        59 => 33754,
        60 => 32768,
        61 => 31772,
        62 => 30767,
        63 => 29753,
        64 => 28729,
        65 => 27697,
        66 => 26656,
        67 => 25607,
        68 => 24550,
        69 => 23486,
        70 => 22415,
        71 => 21336,
        72 => 20252,
        73 => 19161,
        74 => 18064,
        75 => 16962,
        76 => 15855,
        77 => 14742,
        78 => 13626,
        79 => 12505,
        80 => 11380,
        81 => 10252,
        82 => 9121,
        83 => 7987,
        84 => 6850,
        85 => 5712,
        86 => 4572,
        87 => 3430,
        88 => 2287,
        89 => 1144,
        _ => 0,
    }
}

/// Euclidean quotient by a positive divisor.
pub fn div_floor(x: i32, d: i32) -> (r: i32)
    requires
        d > 0,
    ensures
        r == x as int / d as int,
{
    proof {
        assert(i32::MIN <= x as int / d as int <= i32::MAX) by (nonlinear_arith)
            requires
                d > 0,
                i32::MIN <= x <= i32::MAX,
        {
        }
    }
    match x.checked_div_euclid(d) {
        Some(q) => q,
        None => 0,
    }
}

/// Euclidean remainder by a positive divisor.
pub fn rem_floor(x: i32, d: i32) -> (r: i32)
    requires
        d > 0,
    ensures
        r == x as int % d as int,
        0 <= r < d,
{
    match x.checked_rem_euclid(d) {
        Some(q) => q,
        None => 0,
    }
}

/// Floor of `x / 2^16`: the arithmetic shift right by 16 bits.
pub fn fx_floor(x: i64) -> (r: i64)
    ensures
        r == x as int / 65536,
{
    match x.checked_div_euclid(65536) {
        Some(q) => q,
        None => 0,
    }
}

/// 16.16 `(cos, sin)` of a whole number of degrees (any sign; reduced mod 360).
pub open spec fn cos_sin(deg: int) -> (int, int) {
    let d = deg % 360;
    let q = d / 90;
    let r = d % 90;
    if q == 0 {
        (cos_deg_table(r), cos_deg_table(90 - r))
    } else if q == 1 {
        (-cos_deg_table(90 - r), cos_deg_table(r))
    } else if q == 2 {
        (-cos_deg_table(r), -cos_deg_table(90 - r))
    } else {
        (cos_deg_table(90 - r), -cos_deg_table(r))
    }
}

/// 16.16 `(cos, sin)` of a pitch in degrees, clamped to `-90..=90`.
pub open spec fn cos_sin_pitch(deg: int) -> (int, int) {
    let d = if deg < -90 {
        -90
    } else if deg > 90 {
        90
    } else {
        deg
    };
    if d >= 0 {
        (cos_deg_table(d), cos_deg_table(90 - d))
    } else {
        (cos_deg_table(-d), -cos_deg_table(90 + d))
    }
}

/// Whole degrees of a millidegree angle (floor).
pub open spec fn whole_degrees(a: YawMd) -> int {
    a.0 as int / 1000
}

fn cos_sin_deg(deg: i32) -> (r: (i32, i32))
    ensures
        (r.0 as int, r.1 as int) == cos_sin(deg as int),
        -65536 <= r.0 <= 65536,
        -65536 <= r.1 <= 65536,
{
    let d = rem_floor(deg, 360);
    let q = d / 90;
    let r = (d % 90) as usize;
    proof {
        lemma_cos_table_range(r as int);
        lemma_cos_table_range(90 - r as int);
    }
    if q == 0 {
        (cos_table(r), cos_table(90 - r))
    } else if q == 1 {
        (-cos_table(90 - r), cos_table(r))
    } else if q == 2 {
        (-cos_table(r), -cos_table(90 - r))
    } else {
        (cos_table(90 - r), -cos_table(r))
    }
}

fn cos_sin_pitch_deg(deg: i32) -> (r: (i32, i32))
    ensures
        (r.0 as int, r.1 as int) == cos_sin_pitch(deg as int),
        -65536 <= r.0 <= 65536,
        -65536 <= r.1 <= 65536,
{
    let d = if deg < -90 {
        -90
    } else if deg > 90 {
        90
    } else {
        deg
    };
    if d >= 0 {
        let u = d as usize;
        (cos_table(u), cos_table(90 - u))
    } else {
        let p = (-d) as usize;
        (cos_table(p), -cos_table(90 - p))
    }
}

/// Rotation of an XZ vector by yaw about Y; Y is unchanged.
pub open spec fn spec_rotate_xz(v: IVec3, yaw: YawMd) -> IVec3 {
    let (c, s) = cos_sin(whole_degrees(yaw));
    IVec3 {
        x: ((v.x * c + v.z * s) / 65536) as i32,
        y: v.y,
        z: ((-v.x * s + v.z * c) / 65536) as i32,
    }
}

/// Rotate an XZ millimetre vector by yaw about Y. Yaw 0 faces +Z.
pub fn rotate_xz(v: IVec3, yaw: YawMd) -> (r: IVec3)
    ensures
        r == spec_rotate_xz(v, yaw),
{
    let (c, s) = cos_sin_deg(div_floor(yaw.0, 1000));
    let x = v.x as i64;
    let z = v.z as i64;
    let c = c as i64;
    let s = s as i64;
    proof {
        lemma_small_products(x as int, z as int, c as int, s as int);
        lemma_small_products(-x as int, z as int, c as int, s as int);
    }
    IVec3 { x: fx_floor(x * c + z * s) as i32, y: v.y, z: fx_floor(-x * s + z * c) as i32 }
}

/// Two `i32` values scaled by 16.16 unit factors cannot overflow `i64`.
pub proof fn lemma_small_products(x: int, z: int, c: int, s: int)
    requires
        -0x8000_0000 <= x <= 0x8000_0000,
        -0x8000_0000 <= z <= 0x8000_0000,
        -65536 <= c <= 65536,
        -65536 <= s <= 65536,
    ensures
        -0x2_0000_0000_0000 <= x * c <= 0x2_0000_0000_0000,
        -0x2_0000_0000_0000 <= z * s <= 0x2_0000_0000_0000,
        -0x2_0000_0000_0000 <= x * s <= 0x2_0000_0000_0000,
        -0x2_0000_0000_0000 <= z * c <= 0x2_0000_0000_0000,
{
    assert(-0x2_0000_0000_0000 <= x * c <= 0x2_0000_0000_0000) by (nonlinear_arith)
        requires
            -0x8000_0000 <= x <= 0x8000_0000,
            -65536 <= c <= 65536,
    {
    }
    assert(-0x2_0000_0000_0000 <= z * s <= 0x2_0000_0000_0000) by (nonlinear_arith)
        requires
            -0x8000_0000 <= z <= 0x8000_0000,
            -65536 <= s <= 65536,
    {
    }
    assert(-0x2_0000_0000_0000 <= x * s <= 0x2_0000_0000_0000) by (nonlinear_arith)
        requires
            -0x8000_0000 <= x <= 0x8000_0000,
            -65536 <= s <= 65536,
    {
    }
    assert(-0x2_0000_0000_0000 <= z * c <= 0x2_0000_0000_0000) by (nonlinear_arith)
        requires
            -0x8000_0000 <= z <= 0x8000_0000,
            -65536 <= c <= 65536,
    {
    }
}

/// Forward offset of length `range_mm` at `yaw`, `pitch` (pitch clamped to +-90 degrees).
pub open spec fn spec_look_offset(yaw: YawMd, pitch: YawMd, range_mm: i32) -> IVec3 {
    let pm = if pitch.0 < -YawMd::QUARTER_TURN {
        -YawMd::QUARTER_TURN
    } else if pitch.0 > YawMd::QUARTER_TURN {
        YawMd::QUARTER_TURN as int
    } else {
        pitch.0 as int
    };
    let (c, s) = cos_sin_pitch(pm / 1000);
    spec_rotate_xz(
        IVec3 { x: 0, y: ((range_mm * s) / 65536) as i32, z: ((range_mm * c) / 65536) as i32 },
        yaw,
    )
}

/// Forward millimetre offset of length `range_mm` for yaw/pitch. Yaw 0 is +Z.
/// Pitch is clamped to +-90 degrees.
pub fn look_offset(yaw: YawMd, pitch: YawMd, range_mm: i32) -> (r: IVec3)
    ensures
        r == spec_look_offset(yaw, pitch, range_mm),
{
    let pitch_md = if pitch.0 < -YawMd::QUARTER_TURN {
        -YawMd::QUARTER_TURN
    } else if pitch.0 > YawMd::QUARTER_TURN {
        YawMd::QUARTER_TURN
    } else {
        pitch.0
    };
    let (c, s) = cos_sin_pitch_deg(div_floor(pitch_md, 1000));
    let range = range_mm as i64;
    proof {
        lemma_small_products(range as int, range as int, c as int, s as int);
    }
    let y = fx_floor(range * (s as i64)) as i32;
    let z = fx_floor(range * (c as i64)) as i32;
    rotate_xz(IVec3 { x: 0, y, z }, yaw)
}

/// Row-major 3x3 16.16 matrix.
#[derive(Copy, Clone, PartialEq, Eq, Structural, Debug)]
pub struct Mat3 {
    /// First row.
    pub r0: IVec3,
    /// Second row.
    pub r1: IVec3,
    /// Third row.
    pub r2: IVec3,
}

/// 16.16 product, floor-rounded, truncated to `i32`.
pub open spec fn spec_fx_mul(a: i32, b: i32) -> i32 {
    ((a * b) / 65536) as i32
}

/// One entry of a 16.16 matrix product: row `row` against column `(c0, c1, c2)`,
/// summed with `i32` wraparound.
pub open spec fn fx_dot(row: IVec3, c0: i32, c1: i32, c2: i32) -> i32 {
    spec_fx_mul(row.x, c0).wrapping_add(spec_fx_mul(row.y, c1)).wrapping_add(spec_fx_mul(row.z, c2))
}

/// Row of the product `row * b`.
pub open spec fn fx_row(row: IVec3, b: Mat3) -> IVec3 {
    IVec3 {
        x: fx_dot(row, b.r0.x, b.r1.x, b.r2.x),
        y: fx_dot(row, b.r0.y, b.r1.y, b.r2.y),
        z: fx_dot(row, b.r0.z, b.r1.z, b.r2.z),
    }
}

/// 16.16 matrix product.
pub open spec fn spec_mat_mul(a: Mat3, b: Mat3) -> Mat3 {
    Mat3 { r0: fx_row(a.r0, b), r1: fx_row(a.r1, b), r2: fx_row(a.r2, b) }
}

/// Every entry of `v` lies within `-k..=k`.
pub open spec fn within(v: IVec3, k: int) -> bool {
    -k <= v.x <= k && -k <= v.y <= k && -k <= v.z <= k
}

/// Every entry of `m` lies within `-k..=k`.
pub open spec fn mat_within(m: Mat3, k: int) -> bool {
    within(m.r0, k) && within(m.r1, k) && within(m.r2, k)
}

fn fx_mul(a: i32, b: i32) -> (r: i32)
    ensures
        r == spec_fx_mul(a, b),
{
    proof {
        assert(-0x4000_0000_0000_0000 <= a * b <= 0x4000_0000_0000_0000) by (nonlinear_arith)
            requires
                i32::MIN <= a <= i32::MAX,
                i32::MIN <= b <= i32::MAX,
        {
        }
    }
    fx_floor((a as i64) * (b as i64)) as i32
}

/// A product of a unit-bounded and a `k`-bounded 16.16 value stays `k`-bounded.
pub proof fn lemma_fx_mul_bound(a: i32, b: i32, k: int)
    requires
        -65536 <= a <= 65536,
        0 <= k <= 0x10_0000,
        -k <= b <= k,
    ensures
        -k <= spec_fx_mul(a, b) <= k,
{
    assert(-k * 65536 <= a * b <= k * 65536) by (nonlinear_arith)
        requires
            -65536 <= a <= 65536,
            0 <= k,
            -k <= b <= k,
    {
    }
}

fn fx_dot_exec(row: IVec3, c0: i32, c1: i32, c2: i32) -> (r: i32)
    ensures
        r == fx_dot(row, c0, c1, c2),
{
    fx_mul(row.x, c0).wrapping_add(fx_mul(row.y, c1)).wrapping_add(fx_mul(row.z, c2))
}

fn fx_row_exec(row: IVec3, b: Mat3) -> (r: IVec3)
    ensures
        r == fx_row(row, b),
{
    IVec3 {
        x: fx_dot_exec(row, b.r0.x, b.r1.x, b.r2.x),
        y: fx_dot_exec(row, b.r0.y, b.r1.y, b.r2.y),
        z: fx_dot_exec(row, b.r0.z, b.r1.z, b.r2.z),
    }
}

/// 16.16 matrix product with `i32` wraparound in the row sums.
pub fn mat_mul(a: Mat3, b: Mat3) -> (r: Mat3)
    ensures
        r == spec_mat_mul(a, b),
{
    Mat3 { r0: fx_row_exec(a.r0, b), r1: fx_row_exec(a.r1, b), r2: fx_row_exec(a.r2, b) }
}

/// The three rotation factors `Ry(yaw)`, `Rx(pitch)`, `Rz(roll)`.
pub open spec fn rot_y(c: int, s: int) -> Mat3 {
    Mat3 {
        r0: IVec3 { x: c as i32, y: 0, z: s as i32 },
        r1: IVec3 { x: 0, y: 65536, z: 0 },
        r2: IVec3 { x: -s as i32, y: 0, z: c as i32 },
    }
}

/// Pitch factor; `+pitch` lifts `+Z` toward `+Y`.
pub open spec fn rot_x(c: int, s: int) -> Mat3 {
    Mat3 {
        r0: IVec3 { x: 65536, y: 0, z: 0 },
        r1: IVec3 { x: 0, y: c as i32, z: s as i32 },
        r2: IVec3 { x: 0, y: -s as i32, z: c as i32 },
    }
}

/// Roll factor.
pub open spec fn rot_z(c: int, s: int) -> Mat3 {
    Mat3 {
        r0: IVec3 { x: c as i32, y: -s as i32, z: 0 },
        r1: IVec3 { x: s as i32, y: c as i32, z: 0 },
        r2: IVec3 { x: 0, y: 0, z: 65536 },
    }
}

/// `Ry(yaw) * Rx(pitch) * Rz(roll)`, pitch clamped to +-90 degrees.
pub open spec fn rotation_matrix(yaw: YawMd, pitch: YawMd, roll: YawMd) -> Mat3 {
    let (cy, sy) = cos_sin(whole_degrees(yaw));
    let (cp, sp) = cos_sin_pitch(whole_degrees(pitch));
    let (cr, sr) = cos_sin(whole_degrees(roll));
    spec_mat_mul(rot_y(cy, sy), spec_mat_mul(rot_x(cp, sp), rot_z(cr, sr)))
}

/// Images of the local X, Y, Z axes: the columns of [`rotation_matrix`].
pub open spec fn spec_rotation_axes(yaw: YawMd, pitch: YawMd, roll: YawMd) -> (IVec3, IVec3, IVec3) {
    let r = rotation_matrix(yaw, pitch, roll);
    (
        IVec3 { x: r.r0.x, y: r.r1.x, z: r.r2.x },
        IVec3 { x: r.r0.y, y: r.r1.y, z: r.r2.y },
        IVec3 { x: r.r0.z, y: r.r1.z, z: r.r2.z },
    )
}

/// Bound on every entry of a rotation's axes.
pub open spec fn axis_bound() -> int {
    131072
}

/// Every 16.16 `(cos, sin)` pair of the tables lies within one unit.
pub proof fn lemma_cos_sin_range(deg: int)
    ensures
        -65536 <= cos_sin(deg).0 <= 65536,
        -65536 <= cos_sin(deg).1 <= 65536,
        -65536 <= cos_sin_pitch(deg).0 <= 65536,
        -65536 <= cos_sin_pitch(deg).1 <= 65536,
{
    let d = deg % 360;
    let r = d % 90;
    lemma_cos_table_range(r);
    lemma_cos_table_range(90 - r);
    let p = if deg < -90 {
        -90
    } else if deg > 90 {
        90
    } else {
        deg
    };
    if p >= 0 {
        lemma_cos_table_range(p);
        lemma_cos_table_range(90 - p);
    } else {
        lemma_cos_table_range(-p);
        lemma_cos_table_range(90 + p);
    }
}

/// `Rx * Rz` has one non-zero product per entry, so it stays within one unit.
proof fn lemma_inner_bound(cp: int, sp: int, cr: int, sr: int)
    requires
        -65536 <= cp <= 65536,
        -65536 <= sp <= 65536,
        -65536 <= cr <= 65536,
        -65536 <= sr <= 65536,
    ensures
        mat_within(spec_mat_mul(rot_x(cp, sp), rot_z(cr, sr)), 65536),
{
    lemma_fx_mul_bound(cp as i32, sr as i32, 65536);
    lemma_fx_mul_bound(cp as i32, cr as i32, 65536);
    lemma_fx_mul_bound((-sp) as i32, sr as i32, 65536);
    lemma_fx_mul_bound((-sp) as i32, cr as i32, 65536);
    lemma_fx_mul_bound(cp as i32, (-sr) as i32, 65536);
    lemma_fx_mul_bound((-sp) as i32, (-sr) as i32, 65536);
}

/// `Ry * M` for a unit-bounded `M` has at most two non-zero products per entry.
proof fn lemma_outer_bound(cy: int, sy: int, m: Mat3)
    requires
        -65536 <= cy <= 65536,
        -65536 <= sy <= 65536,
        mat_within(m, 65536),
    ensures
        mat_within(spec_mat_mul(rot_y(cy, sy), m), 131072),
{
    let ny = (-sy) as i32;
    lemma_fx_mul_bound(cy as i32, m.r0.x, 65536);
    lemma_fx_mul_bound(cy as i32, m.r0.y, 65536);
    lemma_fx_mul_bound(cy as i32, m.r0.z, 65536);
    lemma_fx_mul_bound(cy as i32, m.r2.x, 65536);
    lemma_fx_mul_bound(cy as i32, m.r2.y, 65536);
    lemma_fx_mul_bound(cy as i32, m.r2.z, 65536);
    lemma_fx_mul_bound(sy as i32, m.r2.x, 65536);
    lemma_fx_mul_bound(sy as i32, m.r2.y, 65536);
    lemma_fx_mul_bound(sy as i32, m.r2.z, 65536);
    lemma_fx_mul_bound(ny, m.r0.x, 65536);
    lemma_fx_mul_bound(ny, m.r0.y, 65536);
    lemma_fx_mul_bound(ny, m.r0.z, 65536);
}

/// The axes of every attitude stay within two units per entry.
pub proof fn lemma_rotation_axes_bound(yaw: YawMd, pitch: YawMd, roll: YawMd)
    ensures
        within(spec_rotation_axes(yaw, pitch, roll).0, axis_bound()),
        within(spec_rotation_axes(yaw, pitch, roll).1, axis_bound()),
        within(spec_rotation_axes(yaw, pitch, roll).2, axis_bound()),
{
    let (cy, sy) = cos_sin(whole_degrees(yaw));
    let (cp, sp) = cos_sin_pitch(whole_degrees(pitch));
    let (cr, sr) = cos_sin(whole_degrees(roll));
    lemma_cos_sin_range(whole_degrees(yaw));
    lemma_cos_sin_range(whole_degrees(pitch));
    lemma_cos_sin_range(whole_degrees(roll));
    lemma_inner_bound(cp, sp, cr, sr);
    lemma_outer_bound(cy, sy, spec_mat_mul(rot_x(cp, sp), rot_z(cr, sr)));
}

/// 16.16 images of the local X, Y, Z axes after `Ry(yaw) * Rx(pitch) * Rz(roll)`.
pub fn rotation_axes(yaw: YawMd, pitch: YawMd, roll: YawMd) -> (r: (IVec3, IVec3, IVec3))
    ensures
        r == spec_rotation_axes(yaw, pitch, roll),
        within(r.0, axis_bound()),
        within(r.1, axis_bound()),
        within(r.2, axis_bound()),
{
    let (cy, sy) = cos_sin_deg(div_floor(yaw.0, 1000));
    let (cp, sp) = cos_sin_pitch_deg(div_floor(pitch.0, 1000));
    let (cr, sr) = cos_sin_deg(div_floor(roll.0, 1000));
    let ry = Mat3 {
        r0: IVec3 { x: cy, y: 0, z: sy },
        r1: IVec3 { x: 0, y: 65536, z: 0 },
        r2: IVec3 { x: -sy, y: 0, z: cy },
    };
    let rx = Mat3 {
        r0: IVec3 { x: 65536, y: 0, z: 0 },
        r1: IVec3 { x: 0, y: cp, z: sp },
        r2: IVec3 { x: 0, y: -sp, z: cp },
    };
    let rz = Mat3 {
        r0: IVec3 { x: cr, y: -sr, z: 0 },
        r1: IVec3 { x: sr, y: cr, z: 0 },
        r2: IVec3 { x: 0, y: 0, z: 65536 },
    };
    let inner = mat_mul(rx, rz);
    let m = mat_mul(ry, inner);
    proof {
        lemma_rotation_axes_bound(yaw, pitch, roll);
    }
    (
        IVec3 { x: m.r0.x, y: m.r1.x, z: m.r2.x },
        IVec3 { x: m.r0.y, y: m.r1.y, z: m.r2.y },
        IVec3 { x: m.r0.z, y: m.r1.z, z: m.r2.z },
    )
}

/// `x*ax + y*ay + z*az`, floor-scaled by 2^-16 and truncated to `i32`.
pub open spec fn spec_fx_axis(x: i32, ax: i32, y: i32, ay: i32, z: i32, az: i32) -> i32 {
    ((x * ax + y * ay + z * az) / 65536) as i32
}

/// Apply axis images to a vector.
pub open spec fn spec_apply_axes(v: IVec3, ax: IVec3, ay: IVec3, az: IVec3) -> IVec3 {
    IVec3 {
        x: spec_fx_axis(v.x, ax.x, v.y, ay.x, v.z, az.x),
        y: spec_fx_axis(v.x, ax.y, v.y, ay.y, v.z, az.y),
        z: spec_fx_axis(v.x, ax.z, v.y, ay.z, v.z, az.z),
    }
}

/// Three `i32` coordinates against axis entries of magnitude at most 2^20 fit `i64`.
pub proof fn lemma_axis_products(x: int, a: int)
    requires
        -0x8000_0000 <= x <= 0x8000_0000,
        -0x10_0000 <= a <= 0x10_0000,
    ensures
        -0x8_0000_0000_0000 <= x * a <= 0x8_0000_0000_0000,
{
    assert(-0x8_0000_0000_0000 <= x * a <= 0x8_0000_0000_0000) by (nonlinear_arith)
        requires
            -0x8000_0000 <= x <= 0x8000_0000,
            -0x10_0000 <= a <= 0x10_0000,
    {
    }
}

fn fx_axis(x: i32, ax: i32, y: i32, ay: i32, z: i32, az: i32) -> (r: i32)
    requires
        -0x10_0000 <= ax <= 0x10_0000,
        -0x10_0000 <= ay <= 0x10_0000,
        -0x10_0000 <= az <= 0x10_0000,
    ensures
        r == spec_fx_axis(x, ax, y, ay, z, az),
{
    proof {
        lemma_axis_products(x as int, ax as int);
        lemma_axis_products(y as int, ay as int);
        lemma_axis_products(z as int, az as int);
    }
    fx_floor((x as i64) * (ax as i64) + (y as i64) * (ay as i64) + (z as i64) * (az as i64)) as i32
}

/// Apply axis images (as produced by [`rotation_axes`]) to a vector.
pub fn apply_axes(v: IVec3, ax: IVec3, ay: IVec3, az: IVec3) -> (r: IVec3)
    requires
        within(ax, 0x10_0000),
        within(ay, 0x10_0000),
        within(az, 0x10_0000),
    ensures
        r == spec_apply_axes(v, ax, ay, az),
{
    IVec3 {
        x: fx_axis(v.x, ax.x, v.y, ay.x, v.z, az.x),
        y: fx_axis(v.x, ax.y, v.y, ay.y, v.z, az.y),
        z: fx_axis(v.x, ax.z, v.y, ay.z, v.z, az.z),
    }
}

/// Rotation by a full attitude; zero pitch and roll is exactly [`spec_rotate_xz`].
pub open spec fn spec_rotate(v: IVec3, yaw: YawMd, pitch: YawMd, roll: YawMd) -> IVec3 {
    if pitch.0 == 0 && roll.0 == 0 {
        spec_rotate_xz(v, yaw)
    } else {
        let (ax, ay, az) = spec_rotation_axes(yaw, pitch, roll);
        spec_apply_axes(v, ax, ay, az)
    }
}

/// Rotate a millimetre vector by the pose attitude. Pitch and roll of zero
/// match [`rotate_xz`] bit-for-bit.
pub fn rotate(v: IVec3, yaw: YawMd, pitch: YawMd, roll: YawMd) -> (r: IVec3)
    ensures
        r == spec_rotate(v, yaw, pitch, roll),
        pitch.0 == 0 && roll.0 == 0 ==> r == spec_rotate_xz(v, yaw),
{
    if pitch.0 == 0 && roll.0 == 0 {
        return rotate_xz(v, yaw);
    }
    let (ax, ay, az) = rotation_axes(yaw, pitch, roll);
    apply_axes(v, ax, ay, az)
}

/// A rotated vector is at most six times as large, entry by entry.
pub proof fn lemma_rotate_bound(v: IVec3, yaw: YawMd, pitch: YawMd, roll: YawMd, k: int)
    requires
        0 <= k <= 0x1000_0000,
        within(v, k),
    ensures
        within(spec_rotate(v, yaw, pitch, roll), 6 * k),
{
    if pitch.0 == 0 && roll.0 == 0 {
        let (c, s) = cos_sin(whole_degrees(yaw));
        lemma_cos_sin_range(whole_degrees(yaw));
        assert(-2 * k * 65536 <= v.x * c + v.z * s <= 2 * k * 65536) by (nonlinear_arith)
            requires
                -k <= v.x <= k,
                -k <= v.z <= k,
                -65536 <= c <= 65536,
                -65536 <= s <= 65536,
        {
        }
        assert(-2 * k * 65536 <= -v.x * s + v.z * c <= 2 * k * 65536) by (nonlinear_arith)
            requires
                -k <= v.x <= k,
                -k <= v.z <= k,
                -65536 <= c <= 65536,
                -65536 <= s <= 65536,
        {
        }
    } else {
        let (ax, ay, az) = spec_rotation_axes(yaw, pitch, roll);
        lemma_rotation_axes_bound(yaw, pitch, roll);
        lemma_apply_bound(v.x as int, v.y as int, v.z as int, ax.x as int, ay.x as int, az.x as int, k);
        lemma_apply_bound(v.x as int, v.y as int, v.z as int, ax.y as int, ay.y as int, az.y as int, k);
        lemma_apply_bound(v.x as int, v.y as int, v.z as int, ax.z as int, ay.z as int, az.z as int, k);
    }
}

proof fn lemma_apply_bound(x: int, y: int, z: int, a: int, b: int, c: int, k: int)
    requires
        0 <= k,
        -k <= x <= k,
        -k <= y <= k,
        -k <= z <= k,
        -131072 <= a <= 131072,
        -131072 <= b <= 131072,
        -131072 <= c <= 131072,
    ensures
        -6 * k <= (x * a + y * b + z * c) / 65536 <= 6 * k,
{
    assert(-6 * k * 65536 <= x * a + y * b + z * c <= 6 * k * 65536) by (nonlinear_arith)
        requires
            0 <= k,
            -k <= x <= k,
            -k <= y <= k,
            -k <= z <= k,
            -131072 <= a <= 131072,
            -131072 <= b <= 131072,
            -131072 <= c <= 131072,
    {
    }
}

/// Yaw zero is the identity rotation.
pub proof fn lemma_rotate_xz_zero_is_identity(v: IVec3)
    ensures
        spec_rotate_xz(v, YawMd(0)) == v,
{
    assert(cos_sin(0) == (65536int, 0int));
    assert((v.x * 65536 + v.z * 0) / 65536 == v.x as int);
    assert((-v.x * 0 + v.z * 65536) / 65536 == v.z as int);
}

/// Rotation about Y never changes height.
pub proof fn lemma_rotate_xz_keeps_height(v: IVec3, yaw: YawMd)
    ensures
        spec_rotate_xz(v, yaw).y == v.y,
{
}

} // verus!

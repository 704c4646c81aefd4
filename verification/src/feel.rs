//! Typed game-feel contract: tick windows, fixed-point response curves,
//! camera and impact presentation, and same-action accessibility, plus the
//! analog fields of a player intent.
use vstd::prelude::*;

use crate::arith::{clamp_int, div_trunc, floor_fx, tdiv};
use crate::failure::{concat, decimal, spec_decimal, text};
use crate::ir_error::IrError;
use crate::names::{Name, Verb};
use crate::units::{VelFx, YawMd};

verus! {

/// A feel error with this field and reason.
pub open spec fn feel_err(e: IrError, field: Seq<char>, reason: Seq<char>) -> bool {
    e matches IrError::InvalidFeel { field: f, reason: r } && f@ == field && r@ == reason
}

fn invalid(field: &str, reason: String) -> (r: IrError)
    ensures
        feel_err(r, field@, reason@),
{
    IrError::InvalidFeel { field: text(field), reason }
}

/// `"{a}{n}{b}"` for a decimal `n`.
fn around(a: &str, n: u64, b: &str) -> (r: String)
    ensures
        r@ == a@ + spec_decimal(n as nat) + b@,
{
    let d = decimal(n);
    let head = concat(a, d.as_str());
    concat(head.as_str(), b)
}

/// `"{n}{b}"` for a decimal `n`.
fn followed(n: u64, b: &str) -> (r: String)
    ensures
        r@ == spec_decimal(n as nat) + b@,
{
    let d = decimal(n);
    concat(d.as_str(), b)
}

/// Inclusive tick window relative to the current action's start tick.
#[derive(Copy, Clone, PartialEq, Eq, Structural, Hash, Debug)]
pub struct TickWindow {
    /// First legal tick, inclusive.
    pub start: u8,
    /// Last legal tick, inclusive.
    pub end: u8,
    /// Verb this window admits.
    pub verb: Verb,
}

/// Why a window is malformed (its field is `window`).
pub open spec fn window_fault(w: TickWindow) -> Option<Seq<char>> {
    if w.start > w.end {
        Some("start "@ + spec_decimal(w.start as nat) + " > end "@ + spec_decimal(w.end as nat))
    } else if w.end > 32 {
        Some("end "@ + spec_decimal(w.end as nat) + " > 32"@)
    } else {
        None
    }
}

impl TickWindow {
    /// `true` when `elapsed` is inside `[start, end]`.
    pub fn contains(self, elapsed: u8) -> (r: bool)
        ensures
            r == (self.start <= elapsed && elapsed <= self.end),
    {
        elapsed >= self.start && elapsed <= self.end
    }

    /// Refuse `start > end`, then an end past [`FeelContract::MAX_WINDOW`].
    pub fn check(&self) -> (r: Result<(), IrError>)
        ensures
            match window_fault(*self) {
                None => r is Ok,
                Some(why) => r is Err && feel_err(r->Err_0, "window"@, why),
            },
    {
        if self.start > self.end {
            let a = around("start ", self.start as u64, " > end ");
            let reason = concat(a.as_str(), decimal(self.end as u64).as_str());
            return Err(invalid("window", reason));
        }
        if self.end > FeelContract::MAX_WINDOW {
            return Err(invalid("window", around("end ", self.end as u64, " > 32")));
        }
        Ok(())
    }
}

/// One knot on a piecewise-linear 16.16 response curve.
#[derive(Copy, Clone, PartialEq, Eq, Structural, Hash, Debug)]
pub struct CurveKnot {
    /// Stick magnitude, per-mille (`0..=1000`).
    pub x: u16,
    /// 16.16 scale factor. `65536` is unity.
    pub y: i32,
}

/// Piecewise-linear fixed-point curve. Knots are sorted by `x`.
#[derive(Clone, PartialEq, Eq, Hash, Debug)]
pub struct QuantizedCurve {
    /// Sorted knots. First `x` is 0; last `x` is 1000.
    pub knots: Vec<CurveKnot>,
}

/// Value on the segment `a`–`b` at `x`, with Rust's truncating division.
/// A segment of zero (or negative) width yields `b.y`.
pub open spec fn seg_value(a: CurveKnot, b: CurveKnot, x: int) -> int {
    let span = if b.x >= a.x { b.x - a.x } else { 0int };
    if span == 0 {
        b.y as int
    } else {
        let t = if x >= a.x { x - a.x } else { 0int };
        a.y + tdiv((b.y - a.y) * t, span)
    }
}

/// Walk the segments from knot `i`: the first whose right end is at or past
/// `x` decides; past the last knot its value holds.
pub open spec fn sample_from(k: Seq<CurveKnot>, x: int, i: int) -> int
    decreases k.len() - i,
{
    if i < 0 || i + 1 >= k.len() {
        k[k.len() - 1].y as int
    } else if x <= k[i + 1].x {
        seg_value(k[i], k[i + 1], x)
    } else {
        sample_from(k, x, i + 1)
    }
}

/// The curve at stick magnitude `x_permille` (clamped to 1000): zero for no
/// knots, the first knot's value up to its `x`, then linear between knots.
pub open spec fn spec_sample(k: Seq<CurveKnot>, x_permille: int) -> int {
    let x = if x_permille < 1000 { x_permille } else { 1000 };
    if k.len() == 0 {
        0
    } else if x <= k[0].x {
        k[0].y as int
    } else {
        sample_from(k, x, 0)
    }
}

/// A signed stick axis through the curve: magnitude per-mille of
/// `i16::MAX`, scale applied in 16.16 (floor), clamped to `i16`.
pub open spec fn spec_apply(k: Seq<CurveKnot>, stick: int) -> int {
    if stick == 0 {
        0
    } else {
        let a = if stick < 0 { -stick } else { stick };
        let scale = spec_sample(k, (a * 1000) / 32767);
        clamp_int((stick * scale) / 65536, -32768, 32767)
    }
}

/// Why the first `m` knot pairs are malformed.
pub open spec fn pairs_fault(k: Seq<CurveKnot>, m: nat) -> Option<Seq<char>>
    decreases m,
{
    if m == 0 {
        None
    } else {
        match pairs_fault(k, (m - 1) as nat) {
            Some(f) => Some(f),
            None => {
                let a = k[m - 1];
                let b = k[m as int];
                if a.x >= b.x {
                    Some("knots must be strictly increasing in x"@)
                } else if a.x > 1000 || b.x > 1000 {
                    Some("knot x is per-mille 0..=1000"@)
                } else {
                    None
                }
            },
        }
    }
}

/// Why a curve is malformed (its field is `curve`).
pub open spec fn curve_fault(k: Seq<CurveKnot>) -> Option<Seq<char>> {
    if k.len() < 2 {
        Some("need at least two knots"@)
    } else if k[0].x != 0 || k[k.len() - 1].x != 1000 {
        Some("knots must start at 0 and end at 1000"@)
    } else {
        pairs_fault(k, (k.len() - 1) as nat)
    }
}

/// The first fault stays the first fault.
proof fn lemma_pairs_fault_stops(k: Seq<CurveKnot>, a: nat, b: nat)
    requires
        a <= b,
        pairs_fault(k, a) is Some,
    ensures
        pairs_fault(k, b) == pairs_fault(k, a),
    decreases b,
{
    if b > a {
        lemma_pairs_fault_stops(k, a, (b - 1) as nat);
    }
}

/// Between the ends: a fraction `t / span` of `dy` never overshoots it.
proof fn lemma_seg_between(dy: int, t: int, span: int)
    requires
        span > 0,
        0 <= t <= span,
    ensures
        dy >= 0 ==> 0 <= tdiv(dy * t, span) <= dy,
        dy < 0 ==> dy <= tdiv(dy * t, span) <= 0,
{
    if dy >= 0 {
        assert(0 <= (dy * t) / span <= dy) by (nonlinear_arith)
            requires
                dy >= 0,
                span > 0,
                0 <= t <= span,
        {
            assert(dy * t <= dy * span);
        }
    } else {
        assert(0 <= ((-dy) * t) / span <= -dy) by (nonlinear_arith)
            requires
                dy < 0,
                span > 0,
                0 <= t <= span,
        {
            assert((-dy) * t <= (-dy) * span);
        }
        assert(-(dy * t) == (-dy) * t) by (nonlinear_arith);
    }
}

fn segment(a: CurveKnot, b: CurveKnot, x: u16) -> (r: i32)
    requires
        x <= b.x,
    ensures
        r == seg_value(a, b, x as int),
{
    let span: u16 = b.x.saturating_sub(a.x);
    if span == 0 {
        return b.y;
    }
    let t: u16 = x.saturating_sub(a.x);
    let dy: i64 = b.y as i64 - a.y as i64;
    proof {
        lemma_seg_between(dy as int, t as int, span as int);
        assert(-0x1_0000_0000 * 65536 <= dy * t <= 0x1_0000_0000 * 65536) by (nonlinear_arith)
            requires
                -0x1_0000_0000 <= dy <= 0x1_0000_0000,
                0 <= t <= 65535,
        {
        }
    }
    let q = div_trunc(dy * t as i64, span as i64);
    let y: i64 = a.y as i64 + q;
    y as i32
}

impl QuantizedCurve {
    /// Linear 0 → 0, 1000 → unity.
    pub fn linear() -> (r: QuantizedCurve)
        ensures
            r.knots@ == seq![CurveKnot { x: 0, y: 0 }, CurveKnot { x: 1000, y: 65536 }],
    {
        QuantizedCurve {
            knots: vec![CurveKnot { x: 0, y: 0 }, CurveKnot { x: 1000, y: VelFx::ONE_RAW }],
        }
    }

    /// Sample at stick magnitude per-mille. Integer lerp, no floats.
    pub fn sample(&self, x_permille: u16) -> (r: VelFx)
        ensures
            r.0 == spec_sample(self.knots@, x_permille as int),
    {
        let x: u16 = if x_permille < 1000 {
            x_permille
        } else {
            1000
        };
        let n = self.knots.len();
        if n == 0 {
            return VelFx(0);
        }
        if x <= self.knots[0].x {
            return VelFx(self.knots[0].y);
        }
        let mut i: usize = 0;
        while i + 1 < n
            invariant
                n == self.knots@.len(),
                0 <= i < n,
                x > self.knots@[0].x,
                x == (if x_permille < 1000 { x_permille as int } else { 1000 }),
                sample_from(self.knots@, x as int, 0) == sample_from(self.knots@, x as int, i as int),
            decreases n - i,
        {
            let a = self.knots[i];
            let b = self.knots[i + 1];
            if x <= b.x {
                return VelFx(segment(a, b, x));
            }
            i = i + 1;
        }
        VelFx(self.knots[n - 1].y)
    }

    /// Scale a signed stick axis through this curve. Magnitude is per-mille of `i16::MAX`.
    pub fn apply_i16(&self, stick: i16) -> (r: i16)
        ensures
            r == spec_apply(self.knots@, stick as int),
    {
        if stick == 0 {
            return 0;
        }
        let a: i32 = if stick < 0 {
            -(stick as i32)
        } else {
            stick as i32
        };
        assert(0 <= (a * 1000) / 32767 <= 1000) by (nonlinear_arith)
            requires
                0 <= a <= 32768,
        {
        }
        let mag: u16 = ((a * 1000) / 32767) as u16;
        let scale = self.sample(mag);
        assert(-0x1_0000_0000_0000 <= stick * scale.0 <= 0x1_0000_0000_0000) by (nonlinear_arith)
            requires
                -32768 <= stick <= 32767,
                -0x8000_0000 <= scale.0 <= 0x7fff_ffff,
        {
        }
        let wide: i128 = stick as i128 * scale.0 as i128;
        let scaled = floor_fx(wide);
        let lo: i128 = -32768;
        let hi: i128 = 32767;
        let c: i128 = if scaled < lo {
            lo
        } else if scaled > hi {
            hi
        } else {
            scaled
        };
        c as i16
    }

    /// Refuse fewer than two knots, ends other than 0 and 1000, and any pair
    /// not strictly increasing or past 1000; the first fault is reported.
    pub fn check(&self) -> (r: Result<(), IrError>)
        ensures
            match curve_fault(self.knots@) {
                None => r is Ok,
                Some(why) => r is Err && feel_err(r->Err_0, "curve"@, why),
            },
    {
        let n = self.knots.len();
        if n < 2 {
            return Err(invalid("curve", text("need at least two knots")));
        }
        if self.knots[0].x != 0 || self.knots[n - 1].x != 1000 {
            return Err(invalid("curve", text("knots must start at 0 and end at 1000")));
        }
        let mut i: usize = 0;
        while i + 1 < n
            invariant
                n == self.knots@.len(),
                n >= 2,
                0 <= i < n,
                self.knots@[0].x == 0,
                self.knots@[n - 1].x == 1000,
                pairs_fault(self.knots@, i as nat) is None,
            decreases n - i,
        {
            let a = self.knots[i];
            let b = self.knots[i + 1];
            if a.x >= b.x {
                proof {
                    lemma_pairs_fault_stops(self.knots@, (i + 1) as nat, (n - 1) as nat);
                }
                return Err(invalid("curve", text("knots must be strictly increasing in x")));
            }
            if a.x > 1000 || b.x > 1000 {
                proof {
                    lemma_pairs_fault_stops(self.knots@, (i + 1) as nat, (n - 1) as nat);
                }
                return Err(invalid("curve", text("knot x is per-mille 0..=1000")));
            }
            i = i + 1;
        }
        Ok(())
    }
}

/// Camera follow, shake, and accessibility caps. Manifest presentation.
#[derive(Copy, Clone, PartialEq, Eq, Structural, Hash, Debug)]
pub struct CameraResponse {
    /// Presentation lerp horizon in ticks.
    pub smoothing_ticks: u8,
    /// Follow stiffness, per-mille of the remaining error applied each tick.
    pub follow_stiffness: u16,
    /// Authored shake amplitude, millimetres.
    pub shake_amp_mm: u16,
    /// Accessibility shake cap, millimetres. Applied shake is `min(amp, cap)`.
    pub shake_cap_mm: u16,
    /// Maximum look acceleration, millidegrees per tick².
    pub accel_cap_md: u32,
    /// Collision-free camera hull radius around the eye, millimetres.
    pub hull_radius_mm: u16,
}

/// Why a camera response is malformed: (field, reason).
pub open spec fn camera_fault(c: CameraResponse) -> Option<(Seq<char>, Seq<char>)> {
    if c.follow_stiffness > 1000 {
        Some(("camera.follow_stiffness"@, "per-mille 0..=1000"@))
    } else if c.shake_amp_mm > c.shake_cap_mm {
        Some(("camera.shake"@, "amp exceeds accessibility cap"@))
    } else {
        None
    }
}

impl CameraResponse {
    /// Readable first-title follow.
    pub fn first_title() -> (r: CameraResponse)
        ensures
            r == (CameraResponse {
                smoothing_ticks: 2,
                follow_stiffness: 500,
                shake_amp_mm: 8,
                shake_cap_mm: 16,
                accel_cap_md: 12_000,
                hull_radius_mm: 250,
            }),
    {
        CameraResponse {
            smoothing_ticks: 2,
            follow_stiffness: 500,
            shake_amp_mm: 8,
            shake_cap_mm: 16,
            accel_cap_md: 12_000,
            hull_radius_mm: 250,
        }
    }

    /// Shake actually presented after accessibility: none when reduced,
    /// else the authored amplitude limited by the cap.
    pub fn presented_shake_mm(self, reduce_shake: bool) -> (r: u16)
        ensures
            reduce_shake ==> r == 0,
            !reduce_shake ==> r == (if self.shake_amp_mm < self.shake_cap_mm {
                self.shake_amp_mm
            } else {
                self.shake_cap_mm
            }),
    {
        if reduce_shake {
            0
        } else if self.shake_amp_mm < self.shake_cap_mm {
            self.shake_amp_mm
        } else {
            self.shake_cap_mm
        }
    }

    /// Refuse a stiffness past 1000 per-mille, then an amplitude over the cap.
    pub fn check(&self) -> (r: Result<(), IrError>)
        ensures
            match camera_fault(*self) {
                None => r is Ok,
                Some(f) => r is Err && feel_err(r->Err_0, f.0, f.1),
            },
    {
        if self.follow_stiffness > 1000 {
            return Err(invalid("camera.follow_stiffness", text("per-mille 0..=1000")));
        }
        if self.shake_amp_mm > self.shake_cap_mm {
            return Err(invalid("camera.shake", text("amp exceeds accessibility cap")));
        }
        Ok(())
    }
}

/// Analog look magnet. Applied to the analog look, never to a projection pose.
#[derive(Copy, Clone, PartialEq, Eq, Structural, Hash, Debug)]
pub struct AimAssistContract {
    /// Fraction of yaw error pulled in, per-mille.
    pub magnet_permille: u16,
    /// Cone inside which magnet applies, millidegrees.
    pub cone_md: u32,
    /// Hard per-tick correction cap, millidegrees.
    pub max_correction_md: u32,
}

impl AimAssistContract {
    /// Off. An explicit `None` on [`FeelContract::aim_assist`] is preferred.
    pub fn off() -> (r: AimAssistContract)
        ensures
            r == (AimAssistContract { magnet_permille: 0, cone_md: 0, max_correction_md: 0 }),
    {
        AimAssistContract { magnet_permille: 0, cone_md: 0, max_correction_md: 0 }
    }

    /// Refuse a magnet past 1000 per-mille.
    pub fn check(&self) -> (r: Result<(), IrError>)
        ensures
            self.magnet_permille > 1000 ==> r is Err && feel_err(
                r->Err_0,
                "aim_assist.magnet_permille"@,
                "per-mille 0..=1000"@,
            ),
            self.magnet_permille <= 1000 ==> r is Ok,
    {
        if self.magnet_permille > 1000 {
            return Err(invalid("aim_assist.magnet_permille", text("per-mille 0..=1000")));
        }
        Ok(())
    }
}

/// Authoritative recovery versus presentation hit-stop.
///
/// `recovery_wait_ticks` is a rite `WAIT`. `hit_stop_present_ticks` freezes
/// presentation pose only; the global tick still advances.
#[derive(Copy, Clone, PartialEq, Eq, Structural, Hash, Debug)]
pub struct ImpactPresentation {
    /// Presentation freeze frames. Never pauses the tick.
    pub hit_stop_present_ticks: u8,
    /// Gameplay stun/recovery, authored as rite `WAIT`.
    pub recovery_wait_ticks: u8,
    /// Impact shake, millimetres, still subject to the camera's shake cap.
    pub shake_amp_mm: u16,
}

impl ImpactPresentation {
    /// Spindle Use: two presentation frames, four-tick recovery.
    pub fn spindle_use() -> (r: ImpactPresentation)
        ensures
            r == (ImpactPresentation { hit_stop_present_ticks: 2, recovery_wait_ticks: 4, shake_amp_mm: 6 }),
    {
        ImpactPresentation { hit_stop_present_ticks: 2, recovery_wait_ticks: 4, shake_amp_mm: 6 }
    }
}

/// Accessibility knobs on the same action. Not a hidden script.
#[derive(Copy, Clone, PartialEq, Eq, Structural, Hash, Debug)]
pub struct FeelAccessibility {
    /// Zero presented camera shake.
    pub reduce_shake: bool,
    /// Suppress haptic cues; visual/audio fallback remains.
    pub reduce_haptics: bool,
    /// Hold becomes toggle for this action.
    pub hold_to_toggle: bool,
    /// Require a non-zero [`AimAssistContract`] before the action is playable.
    pub aim_assist_required: bool,
}

impl Default for FeelAccessibility {
    fn default() -> (r: FeelAccessibility)
        ensures
            !r.reduce_shake && !r.reduce_haptics && !r.hold_to_toggle && !r.aim_assist_required,
    {
        FeelAccessibility {
            reduce_shake: false,
            reduce_haptics: false,
            hold_to_toggle: false,
            aim_assist_required: false,
        }
    }
}

/// Typed feel for one playable action.
#[derive(Clone, PartialEq, Eq, Hash, Debug)]
pub struct FeelContract {
    /// Action this contract tunes (`use`, `move`, `fire`).
    pub action: Name,
    /// How many ticks a discrete press may wait for a legal window.
    pub input_buffer_ticks: u8,
    /// Ticks after leaving support during which a grounded action still fires.
    pub coyote_ticks: u8,
    /// Cancel windows, sorted by start.
    pub cancel_windows: Vec<TickWindow>,
    /// Combo windows, sorted by start.
    pub combo_windows: Vec<TickWindow>,
    /// Stick acceleration response.
    pub accel_curve: QuantizedCurve,
    /// Stick deceleration / release response.
    pub decel_curve: QuantizedCurve,
    /// Camera follow and shake.
    pub camera: CameraResponse,
    /// Optional analog magnet.
    pub aim_assist: Option<AimAssistContract>,
    /// Hit-stop imagery versus rite recovery.
    pub impact: ImpactPresentation,
    /// Haptic pattern id. Empty name means no cue.
    pub haptics: Name,
    /// Same-action accessibility.
    pub accessibility: FeelAccessibility,
}

/// The first malformed window among the first `m`.
pub open spec fn windows_fault(ws: Seq<TickWindow>, m: nat) -> Option<Seq<char>>
    decreases m,
{
    if m == 0 {
        None
    } else {
        match windows_fault(ws, (m - 1) as nat) {
            Some(f) => Some(f),
            None => window_fault(ws[m - 1]),
        }
    }
}

/// The first structural fault of a feel contract whose names are present:
/// buffer, coyote, cancel then combo windows, curves, camera, assist, and
/// an accessibility demand for an assist that is absent.
pub open spec fn feel_fault(f: FeelContract) -> Option<(Seq<char>, Seq<char>)> {
    let ws = f.cancel_windows@ + f.combo_windows@;
    if f.input_buffer_ticks > 8 {
        Some(("input_buffer_ticks"@, spec_decimal(f.input_buffer_ticks as nat) + " > 8"@))
    } else if f.coyote_ticks > 8 {
        Some(("coyote_ticks"@, spec_decimal(f.coyote_ticks as nat) + " > 8"@))
    } else if windows_fault(ws, ws.len()) is Some {
        Some(("window"@, windows_fault(ws, ws.len())->0))
    } else if curve_fault(f.accel_curve.knots@) is Some {
        Some(("curve"@, curve_fault(f.accel_curve.knots@)->0))
    } else if curve_fault(f.decel_curve.knots@) is Some {
        Some(("curve"@, curve_fault(f.decel_curve.knots@)->0))
    } else if camera_fault(f.camera) is Some {
        camera_fault(f.camera)
    } else if f.aim_assist matches Some(a) && a.magnet_permille > 1000 {
        Some(("aim_assist.magnet_permille"@, "per-mille 0..=1000"@))
    } else if f.accessibility.aim_assist_required && f.aim_assist is None {
        Some(("aim_assist"@, "accessibility requires an aim-assist contract"@))
    } else {
        None
    }
}

/// The contract passes validation: ids present and no structural fault.
pub open spec fn feel_valid(f: FeelContract) -> bool {
    f.action@.len() > 0 && f.haptics@.len() > 0 && feel_fault(f) is None
}

proof fn lemma_windows_fault_stops(ws: Seq<TickWindow>, a: nat, b: nat)
    requires
        a <= b,
        windows_fault(ws, a) is Some,
    ensures
        windows_fault(ws, b) == windows_fault(ws, a),
    decreases b,
{
    if b > a {
        lemma_windows_fault_stops(ws, a, (b - 1) as nat);
    }
}

fn copy_vec<T: Copy>(v: &Vec<T>) -> (r: Vec<T>)
    ensures
        r@ == v@,
{
    let mut out: Vec<T> = Vec::new();
    let mut i: usize = 0;
    while i < v.len()
        invariant
            0 <= i <= v@.len(),
            out@ == v@.subrange(0, i as int),
        decreases v@.len() - i,
    {
        out.push(v[i]);
        i = i + 1;
        assert(out@ =~= v@.subrange(0, i as int));
    }
    assert(out@ =~= v@);
    out
}

/// The assist granted when accessibility demands one and none was authored.
pub open spec fn fallback_assist() -> AimAssistContract {
    AimAssistContract { magnet_permille: 250, cone_md: 8_000, max_correction_md: 2_000 }
}

/// The Spindle Use/Open action suite, field by field.
pub open spec fn spindle_contract(c: FeelContract) -> bool {
    &&& c.action@ == "use"@
    &&& c.input_buffer_ticks == 2
    &&& c.coyote_ticks == 2
    &&& c.cancel_windows@ == seq![TickWindow { start: 0, end: 3, verb: Verb::Drop }]
    &&& c.combo_windows@ == seq![TickWindow { start: 4, end: 8, verb: Verb::Use }]
    &&& c.accel_curve.knots@ == seq![CurveKnot { x: 0, y: 0 }, CurveKnot { x: 1000, y: 65536 }]
    &&& c.decel_curve.knots@ == seq![CurveKnot { x: 0, y: 0 }, CurveKnot { x: 1000, y: 65536 }]
    &&& c.camera == (CameraResponse {
                smoothing_ticks: 2,
                follow_stiffness: 500,
                shake_amp_mm: 8,
                shake_cap_mm: 16,
                accel_cap_md: 12_000,
                hull_radius_mm: 250,
            })
    &&& c.aim_assist is None
    &&& c.impact == (ImpactPresentation { hit_stop_present_ticks: 2, recovery_wait_ticks: 4, shake_amp_mm: 6 })
    &&& c.haptics@ == "hit"@
    &&& c.accessibility == (FeelAccessibility {
                reduce_shake: false,
                reduce_haptics: false,
                hold_to_toggle: false,
                aim_assist_required: false,
            })
}

impl FeelContract {
    /// Authored buffer cap. Longer values fail closed.
    pub const MAX_BUFFER: u8 = 8;
    /// Authored coyote cap.
    pub const MAX_COYOTE: u8 = 8;
    /// Inclusive window end cap.
    pub const MAX_WINDOW: u8 = 32;

    /// Spindle Use/Open action suite.
    pub fn spindle_use() -> (r: FeelContract)
        ensures
            spindle_contract(r),
    {
        let r = FeelContract {
            action: Name::of("use"),
            input_buffer_ticks: 2,
            coyote_ticks: 2,
            cancel_windows: vec![TickWindow { start: 0, end: 3, verb: Verb::Drop }],
            combo_windows: vec![TickWindow { start: 4, end: 8, verb: Verb::Use }],
            accel_curve: QuantizedCurve::linear(),
            decel_curve: QuantizedCurve::linear(),
            camera: CameraResponse::first_title(),
            aim_assist: None,
            impact: ImpactPresentation::spindle_use(),
            haptics: Name::of("hit"),
            accessibility: FeelAccessibility::default(),
        };
        assert(r.cancel_windows@ =~= seq![TickWindow { start: 0, end: 3, verb: Verb::Drop }]);
        assert(r.combo_windows@ =~= seq![TickWindow { start: 4, end: 8, verb: Verb::Use }]);
        assert(r.accel_curve.knots@ =~= seq![CurveKnot { x: 0, y: 0 }, CurveKnot { x: 1000, y: 65536 }]);
        assert(r.decel_curve.knots@ =~= seq![CurveKnot { x: 0, y: 0 }, CurveKnot { x: 1000, y: 65536 }]);
        r
    }

    /// Apply accessibility overlays without changing the authored recovery
    /// WAIT: haptics become `none` when reduced, and a required assist is
    /// granted the fallback magnet when none was authored.
    pub fn with_accessibility(&self, access: FeelAccessibility) -> (r: FeelContract)
        ensures
            r.action@ == self.action@,
            r.input_buffer_ticks == self.input_buffer_ticks,
            r.coyote_ticks == self.coyote_ticks,
            r.cancel_windows@ == self.cancel_windows@,
            r.combo_windows@ == self.combo_windows@,
            r.accel_curve.knots@ == self.accel_curve.knots@,
            r.decel_curve.knots@ == self.decel_curve.knots@,
            r.camera == self.camera,
            r.impact == self.impact,
            r.accessibility == access,
            r.haptics@ == (if access.reduce_haptics { "none"@ } else { self.haptics@ }),
            r.aim_assist == (if access.aim_assist_required && self.aim_assist is None {
                Some(fallback_assist())
            } else {
                self.aim_assist
            }),
    {
        let haptics = if access.reduce_haptics {
            Name::of("none")
        } else {
            Name::of(self.haptics.as_str())
        };
        let aim_assist = if access.aim_assist_required && self.aim_assist.is_none() {
            Some(AimAssistContract { magnet_permille: 250, cone_md: 8_000, max_correction_md: 2_000 })
        } else {
            self.aim_assist
        };
        FeelContract {
            action: Name::of(self.action.as_str()),
            input_buffer_ticks: self.input_buffer_ticks,
            coyote_ticks: self.coyote_ticks,
            cancel_windows: copy_vec(&self.cancel_windows),
            combo_windows: copy_vec(&self.combo_windows),
            accel_curve: QuantizedCurve { knots: copy_vec(&self.accel_curve.knots) },
            decel_curve: QuantizedCurve { knots: copy_vec(&self.decel_curve.knots) },
            camera: self.camera,
            aim_assist,
            impact: self.impact,
            haptics,
            accessibility: access,
        }
    }

    /// Structural bounds; the first fault is reported. Recovery WAIT is
    /// never rewritten here.
    pub fn validate(&self) -> (r: Result<(), IrError>)
        ensures
            (self.action@.len() == 0 || self.haptics@.len() == 0) ==> r == Err::<(), IrError>(
                IrError::EmptyName,
            ),
            (self.action@.len() > 0 && self.haptics@.len() > 0) ==> match feel_fault(*self) {
                None => r is Ok,
                Some(f) => r is Err && feel_err(r->Err_0, f.0, f.1),
            },
    {
        self.action.check()?;
        self.haptics.check()?;
        if self.input_buffer_ticks > FeelContract::MAX_BUFFER {
            return Err(invalid("input_buffer_ticks", followed(self.input_buffer_ticks as u64, " > 8")));
        }
        if self.coyote_ticks > FeelContract::MAX_COYOTE {
            return Err(invalid("coyote_ticks", followed(self.coyote_ticks as u64, " > 8")));
        }
        let ghost ws = self.cancel_windows@ + self.combo_windows@;
        let nc = self.cancel_windows.len();
        let mut i: usize = 0;
        while i < nc
            invariant
                ws == self.cancel_windows@ + self.combo_windows@,
                nc == self.cancel_windows@.len(),
                0 <= i <= nc,
                self.action@.len() > 0,
                self.haptics@.len() > 0,
                self.input_buffer_ticks <= 8,
                self.coyote_ticks <= 8,
                windows_fault(ws, i as nat) is None,
            decreases nc - i,
        {
            let w = self.cancel_windows[i];
            assert(w == ws[i as int]);
            let c = w.check();
            if c.is_err() {
                proof {
                    lemma_windows_fault_stops(ws, (i + 1) as nat, ws.len());
                }
                return c;
            }
            i = i + 1;
        }
        let nb = self.combo_windows.len();
        let mut j: usize = 0;
        while j < nb
            invariant
                ws == self.cancel_windows@ + self.combo_windows@,
                nc == self.cancel_windows@.len(),
                nb == self.combo_windows@.len(),
                0 <= j <= nb,
                self.action@.len() > 0,
                self.haptics@.len() > 0,
                self.input_buffer_ticks <= 8,
                self.coyote_ticks <= 8,
                windows_fault(ws, (nc + j) as nat) is None,
            decreases nb - j,
        {
            let w = self.combo_windows[j];
            assert(w == ws[nc + j]);
            let c = w.check();
            if c.is_err() {
                proof {
                    lemma_windows_fault_stops(ws, (nc + j + 1) as nat, ws.len());
                }
                return c;
            }
            j = j + 1;
        }
        self.accel_curve.check()?;
        self.decel_curve.check()?;
        self.camera.check()?;
        if let Some(assist) = &self.aim_assist {
            assist.check()?;
        }
        if self.accessibility.aim_assist_required && self.aim_assist.is_none() {
            return Err(invalid("aim_assist", text("accessibility requires an aim-assist contract")));
        }
        Ok(())
    }
}

/// Timing phase, stick, look delta (millidegrees).
#[derive(Copy, Clone, PartialEq, Eq, Structural, Hash, Debug)]
pub struct Analog {
    /// Per-mille of the current WAIT window, `0..=1000`. Ignored when no WAIT.
    pub phase: u16,
    /// Stick X, signed. Runtime maps to a proposed velocity.
    pub stick_x: i16,
    /// Stick Z (forward), signed.
    pub stick_z: i16,
    /// Look yaw delta this tick, millidegrees.
    pub look_yaw: YawMd,
    /// Look pitch delta this tick, millidegrees. Runtime clamps.
    pub look_pitch: i32,
}

impl Default for Analog {
    fn default() -> (r: Analog)
        ensures
            r == (Analog { phase: 0, stick_x: 0, stick_z: 0, look_yaw: YawMd(0), look_pitch: 0 }),
    {
        Analog { phase: 0, stick_x: 0, stick_z: 0, look_yaw: YawMd(0), look_pitch: 0 }
    }
}

impl Analog {
    /// Refuse a phase past 1000 per-mille.
    pub fn check(&self) -> (r: Result<(), IrError>)
        ensures
            self.phase > 1000 ==> r == Err::<(), IrError>(IrError::InvalidPhase(self.phase)),
            self.phase <= 1000 ==> r == Ok::<(), IrError>(()),
    {
        if self.phase > 1000 {
            Err(IrError::InvalidPhase(self.phase))
        } else {
            Ok(())
        }
    }
}

} // verus!

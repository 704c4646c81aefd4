use klotho::a11y::{A11yProfile, CaptionMode, ContrastMode};
use klotho::feel::{
    AimAssistContract, Analog, CameraResponse, CurveKnot, FeelAccessibility, FeelContract, QuantizedCurve,
    TickWindow,
};

use klotho::ir_error::IrError;
use klotho::names::{Name, Verb};
use klotho::present::{CastingConsent, MaterialGraph, MaterialNode, PresentProfile, QualityTier};
use klotho::units::{VelFx, YawMd};

const ONE: i32 = 65_536;

#[test]
fn tiers_are_stable_and_fall_back() {
    assert_eq!(QualityTier::High.as_u8(), 2);
    assert_eq!(QualityTier::from_u8(1), Some(QualityTier::Medium));
    assert_eq!(QualityTier::from_u8(3), None);
    assert_eq!(QualityTier::High.fallback(), Some(QualityTier::Medium));
    assert_eq!(QualityTier::Medium.fallback(), Some(QualityTier::Low));
    assert_eq!(QualityTier::Low.fallback(), None);
    PresentProfile::high().validate().unwrap();
    PresentProfile::medium().validate().unwrap();
    PresentProfile::low().validate().unwrap();
}

#[test]
fn drifted_profile_fails() {
    let mut p = PresentProfile::high();
    p.vram_mb = 1;
    assert!(p.validate().is_err());
}

#[test]
fn organic_graph_validates_and_overcap_fails() {
    let g = MaterialGraph::organic();
    g.validate().unwrap();
    let mut bad = g.clone();
    bad.nodes = vec![MaterialNode::Constant { rgb_milli: [0; 3] }; 17];
    assert!(bad.validate().is_err());
    let mut fwd = MaterialGraph::organic();
    fwd.nodes[0] = MaterialNode::Mul { a: 1, b: 0 };
    assert!(fwd.validate().is_err());
}

#[test]
fn consent_zero_hash_fails() {
    CastingConsent::first_title().validate().unwrap();
    let mut c = CastingConsent::first_title();
    c.consent = klotho::hash::Hash::zero();
    assert!(c.validate().is_err());
}

#[test]
fn present_errors_name_field_and_reason() {
    let mut p = PresentProfile::low();
    p.us_present = 0;
    match p.validate() {
        Err(IrError::InvalidPresent { field, reason }) => {
            assert_eq!(field, "us_present");
            assert_eq!(reason, "must be > 0");
        }
        other => panic!("{other:?}"),
    }
    let mut fwd = MaterialGraph::organic();
    fwd.nodes[1] = MaterialNode::Lerp { a: 0, b: 1, t: 0 };
    match fwd.validate() {
        Err(IrError::InvalidPresent { field, reason }) => {
            assert_eq!(field, "lerp");
            assert_eq!(reason, "forward or oob node ref");
        }
        other => panic!("{other:?}"),
    }
}

#[test]
fn spindle_use_validates() {
    FeelContract::spindle_use().validate().unwrap();
}

#[test]
fn linear_curve_is_unity_at_full_deflection() {
    let c = QuantizedCurve::linear();
    assert_eq!(c.sample(0), VelFx(0));
    assert_eq!(c.sample(1000), VelFx(ONE));
    assert_eq!(c.sample(500), VelFx(ONE / 2));
    assert_eq!(c.apply_i16(0), 0);
    assert_eq!(c.apply_i16(32767), 32767);
    assert_eq!(c.apply_i16(-32767), -32767);
}

#[test]
fn curve_rejects_unsorted_knots() {
    let c = QuantizedCurve {
        knots: vec![
            CurveKnot { x: 0, y: 0 },
            CurveKnot { x: 100, y: 1 },
            CurveKnot { x: 50, y: 2 },
            CurveKnot { x: 1000, y: ONE },
        ],
    };
    assert!(c.check().is_err());
}

#[test]
fn buffer_over_cap_fails() {
    let mut f = FeelContract::spindle_use();
    f.input_buffer_ticks = 9;
    assert!(f.validate().is_err());
}

#[test]
fn accessibility_does_not_rewrite_recovery_wait() {
    let base = FeelContract::spindle_use();
    let tuned = base.with_accessibility(FeelAccessibility {
        reduce_shake: true,
        reduce_haptics: true,
        hold_to_toggle: true,
        aim_assist_required: false,
    });
    assert_eq!(tuned.impact.recovery_wait_ticks, base.impact.recovery_wait_ticks);
    assert_eq!(tuned.haptics.as_str(), "none");
    assert_eq!(tuned.camera.presented_shake_mm(true), 0);
}

#[test]
fn window_contains_inclusive() {
    let w = TickWindow { start: 2, end: 4, verb: Verb::Use };
    assert!(!w.contains(1));
    assert!(w.contains(2));
    assert!(w.contains(4));
    assert!(!w.contains(5));
}

#[test]
fn feel_errors_carry_decimal_reasons() {
    let mut f = FeelContract::spindle_use();
    f.coyote_ticks = 12;
    assert_eq!(
        f.validate(),
        Err(IrError::InvalidFeel { field: "coyote_ticks".to_string(), reason: "12 > 8".to_string() })
    );
    let w = TickWindow { start: 7, end: 3, verb: Verb::Drop };
    assert_eq!(
        w.check(),
        Err(IrError::InvalidFeel { field: "window".to_string(), reason: "start 7 > end 3".to_string() })
    );
    let late = TickWindow { start: 0, end: 40, verb: Verb::Drop };
    assert_eq!(
        late.check(),
        Err(IrError::InvalidFeel { field: "window".to_string(), reason: "end 40 > 32".to_string() })
    );
    let mut combo = FeelContract::spindle_use();
    combo.combo_windows.push(TickWindow { start: 9, end: 33, verb: Verb::Use });
    assert_eq!(
        combo.validate(),
        Err(IrError::InvalidFeel { field: "window".to_string(), reason: "end 33 > 32".to_string() })
    );
}

#[test]
fn curve_interpolates_between_knots_toward_zero() {
    let c = QuantizedCurve {
        knots: vec![CurveKnot { x: 0, y: 0 }, CurveKnot { x: 300, y: -1000 }, CurveKnot { x: 1000, y: 2500 }],
    };
    c.check().unwrap();
    assert_eq!(c.sample(100).0, -333);
    assert_eq!(c.sample(300).0, -1000);
    assert_eq!(c.sample(650).0, 750);
    assert_eq!(c.sample(5000).0, 2500);
    let empty = QuantizedCurve { knots: vec![] };
    assert_eq!(empty.sample(10), VelFx(0));
    let ends = QuantizedCurve { knots: vec![CurveKnot { x: 0, y: 0 }, CurveKnot { x: 900, y: 1 }] };
    assert!(ends.check().is_err());
    let half = QuantizedCurve { knots: vec![CurveKnot { x: 0, y: 0 }, CurveKnot { x: 1000, y: ONE / 2 }] };
    assert_eq!(half.apply_i16(-32768), -16384);
    let double = QuantizedCurve { knots: vec![CurveKnot { x: 0, y: 0 }, CurveKnot { x: 1000, y: 2 * ONE }] };
    assert_eq!(double.apply_i16(32767), 32767);
    assert_eq!(double.apply_i16(-20000), -24400);
    assert_eq!(double.apply_i16(-32767), -32768);
}

#[test]
fn camera_and_assist_bounds() {
    let mut cam = CameraResponse::first_title();
    assert_eq!(cam.presented_shake_mm(false), 8);
    cam.shake_amp_mm = 40;
    assert!(cam.check().is_err());
    cam.shake_cap_mm = 30;
    cam.shake_amp_mm = 20;
    assert_eq!(cam.presented_shake_mm(false), 20);
    assert!(AimAssistContract::off().check().is_ok());
    let strong = AimAssistContract { magnet_permille: 1001, cone_md: 1, max_correction_md: 1 };
    assert!(strong.check().is_err());
}

#[test]
fn required_assist_is_granted_then_validates() {
    let base = FeelContract::spindle_use();
    let mut missing = base.clone();
    missing.accessibility.aim_assist_required = true;
    assert_eq!(
        missing.validate(),
        Err(IrError::InvalidFeel {
            field: "aim_assist".to_string(),
            reason: "accessibility requires an aim-assist contract".to_string(),
        })
    );
    let tuned = base.with_accessibility(FeelAccessibility {
        reduce_shake: false,
        reduce_haptics: false,
        hold_to_toggle: false,
        aim_assist_required: true,
    });
    assert_eq!(
        tuned.aim_assist,
        Some(AimAssistContract { magnet_permille: 250, cone_md: 8_000, max_correction_md: 2_000 })
    );
    assert_eq!(tuned.haptics, Name::from("hit"));
    tuned.validate().unwrap();
}

#[test]
fn analog_phase_is_per_mille() {
    let mut a = Analog::default();
    assert_eq!(a.look_yaw, YawMd(0));
    assert!(a.check().is_ok());
    a.phase = 1001;
    assert_eq!(a.check(), Err(IrError::InvalidPhase(1001)));
}

#[test]
fn first_title_validates_and_round_trips() {
    let p = A11yProfile::first_title();
    p.validate().unwrap();
    assert_eq!(A11yProfile::default(), p);
    assert_eq!(p.caption_mode(), CaptionMode::Subtitles);
    assert!(!p.feel().reduce_shake);
}

#[test]
fn mini_tapestry_ron_parses() {
    let p = A11yProfile {
        remap: true,
        hold_to_toggle: true,
        subtitles: true,
        closed_captions: false,
        text_scale_milli: 1000,
        contrast: ContrastMode::Default,
        reduce_motion: true,
        reduce_shake: true,
        screen_reader: false,
    };
    assert!(p.remap);
    assert!(p.hold_to_toggle);
    assert!(!p.screen_reader);
    assert!(!p.closed_captions);
    assert_eq!(p.contrast, ContrastMode::default());
}

#[test]
fn scale_out_of_range_fails() {
    let mut p = A11yProfile::first_title();
    p.text_scale_milli = 500;
    assert!(p.validate().is_err());
    p.text_scale_milli = 2_001;
    assert!(p.validate().is_err());
}

#[test]
fn max_access_is_high_contrast_captions_and_reader() {
    let p = A11yProfile::max_access();
    p.validate().unwrap();
    assert_eq!(p.contrast, ContrastMode::High);
    assert_eq!(p.caption_mode(), CaptionMode::ClosedCaptions);
    assert!(p.screen_reader);
    assert!(p.feel().reduce_shake);
    assert!(p.feel().hold_to_toggle);
}

#[test]
fn a11y_names_and_scale_message() {
    assert_eq!(ContrastMode::High.as_str(), "high");
    assert_eq!(CaptionMode::ClosedCaptions.as_str(), "closed_captions");
    assert_eq!(CaptionMode::default(), CaptionMode::Subtitles);
    let mut p = A11yProfile::first_title();
    p.subtitles = false;
    assert_eq!(p.caption_mode(), CaptionMode::Off);
    p.text_scale_milli = 700;
    assert_eq!(
        p.validate(),
        Err(IrError::InvalidA11y {
            field: "text_scale_milli".to_string(),
            reason: "700 not in 750..=2000".to_string(),
        })
    );
}

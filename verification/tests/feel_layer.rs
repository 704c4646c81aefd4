use klotho::feel::{Analog, FeelAccessibility, FeelContract};
use klotho::feel_mapper::{FeelMapper, FeelSample, MappedIntent};
use klotho::latency::FeelGate;
use klotho::names::Verb;
use klotho::units::Tick;

fn sample(tick: u64, grounded: bool) -> FeelSample {
    FeelSample { tick: Tick(tick), grounded, stick_x: 0, stick_z: 0, aim_yaw_error_md: 0 }
}

/// What the hearth bind table maps for a sample: the pressed button's verb,
/// else move while the stick is deflected, else look.
fn mapped(verb: Verb) -> MappedIntent {
    MappedIntent { verb, analog: Analog::default() }
}

#[test]
fn coyote_keeps_use_after_leaving_support() {
    let mut mapper = FeelMapper::spindle().unwrap();
    let grounded = sample(0, true);
    assert_eq!(mapper.map(&grounded, mapped(Verb::Look)).unwrap().verb, Verb::Look);
    let air = sample(1, false);
    let coyote = mapper.map(&air, mapped(Verb::Use)).unwrap();
    assert_eq!(coyote.verb, Verb::Use);
}

#[test]
fn coyote_expires() {
    let mut mapper = FeelMapper::spindle().unwrap();
    mapper.map(&sample(0, true), mapped(Verb::Look)).unwrap();
    let late = mapper.map(&sample(3, false), mapped(Verb::Use)).unwrap();
    assert_eq!(late.verb, Verb::Look);
}

#[test]
fn buffer_older_than_authored_window_is_unexplained_queue() {
    let mut mapper = FeelMapper::spindle().unwrap();
    // Not grounded and no coyote: Use is buffered, not released.
    assert_eq!(mapper.map(&sample(0, false), mapped(Verb::Use)).unwrap().verb, Verb::Look);
    assert!(matches!(mapper.map(&sample(3, false), mapped(Verb::Look)), Err(FeelGate::UnexplainedQueue { .. })));
}

#[test]
fn linear_curve_preserves_full_stick() {
    let mut mapper = FeelMapper::spindle().unwrap();
    let mut s = sample(0, false);
    s.stick_z = 32_767;
    let p = mapper.map(&s, mapped(Verb::Move)).unwrap();
    assert_eq!(p.verb, Verb::Move);
    assert_eq!(p.analog.stick_z, 32_767);
}

#[test]
fn hold_to_toggle_emits_once() {
    let mut contract = FeelContract::spindle_use();
    contract.accessibility = FeelAccessibility { hold_to_toggle: true, ..FeelAccessibility::default() };
    let mut mapper = FeelMapper::new(contract).unwrap();
    let s = sample(0, true);
    assert_eq!(mapper.map(&s, mapped(Verb::Use)).unwrap().verb, Verb::Use);
    let s = sample(1, true);
    assert_eq!(mapper.map(&s, mapped(Verb::Use)).unwrap().verb, Verb::Look);
}

#[test]
fn cancel_window_releases_drop() {
    let mut mapper = FeelMapper::spindle().unwrap();
    assert_eq!(mapper.map(&sample(0, true), mapped(Verb::Use)).unwrap().verb, Verb::Use);
    assert_eq!(mapper.map(&sample(1, true), mapped(Verb::Drop)).unwrap().verb, Verb::Drop);
}

#[test]
fn buffered_press_waits_then_releases_on_support() {
    let mut mapper = FeelMapper::spindle().unwrap();
    let mut s = sample(5, false);
    s.stick_x = 100;
    // No support and no coyote: the press is held back as movement.
    assert_eq!(mapper.map(&s, mapped(Verb::Open)).unwrap().verb, Verb::Move);
    assert_eq!(mapper.pending(), vec![(Tick(5), Verb::Open)]);
    // Landing one tick later releases the buffered press.
    assert_eq!(mapper.map(&sample(6, true), mapped(Verb::Look)).unwrap().verb, Verb::Open);
    assert!(mapper.pending().is_empty());
    assert_eq!(mapper.contract().coyote_ticks, 2);
}

#[test]
fn invalid_contract_is_refused() {
    let mut c = FeelContract::spindle_use();
    c.coyote_ticks = 99;
    assert!(FeelMapper::new(c).is_err());
}

#[test]
fn queue_age_saturates_at_255() {
    let mut mapper = FeelMapper::spindle().unwrap();
    mapper.map(&sample(0, false), mapped(Verb::Use)).unwrap();
    assert_eq!(
        mapper.map(&sample(1_000, false), mapped(Verb::Look)),
        Err(FeelGate::UnexplainedQueue { authored: 2, pending_age: 255 })
    );
}

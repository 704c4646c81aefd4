use klotho::feel::{AimAssistContract, Analog};
use klotho::latency::{apply_aim_assist, DeviceLane, FeelGate, LatencyLog, LatencySample};
use klotho::units::YawMd;

#[test]
fn first_title_lane_is_25ms_present_and_tick_plus_8ms_authority() {
    let lane = DeviceLane::first_title_wired();
    assert_eq!(lane.present_p95_us, 25_000);
    assert_eq!(lane.authority_p95_us(), 33_333 + 8_000);
}

#[test]
fn latency_p95_meets_lane() {
    let mut log = LatencyLog::new();
    for i in 0..20 {
        log.push(LatencySample {
            sample_us: i * 1_000,
            intent_us: i * 1_000 + 1_000,
            present_us: i * 1_000 + 8_000,
            admit_us: i * 1_000 + 20_000,
        });
    }
    log.meets(DeviceLane::first_title_wired()).unwrap();
}

#[test]
fn latency_p95_fails_when_present_is_late() {
    let mut log = LatencyLog::new();
    log.push(LatencySample { sample_us: 0, intent_us: 1_000, present_us: 40_000, admit_us: 10_000 });
    assert!(matches!(log.meets(DeviceLane::first_title_wired()), Err(FeelGate::PresentP95 { .. })));
}

#[test]
fn empty_log_fails_closed() {
    assert_eq!(LatencyLog::new().meets(DeviceLane::first_title_wired()), Err(FeelGate::NoSamples));
}

#[test]
fn aim_assist_pulls_inside_cone() {
    let analog = Analog { look_yaw: YawMd(0), ..Analog::default() };
    let out = apply_aim_assist(
        analog,
        4_000,
        AimAssistContract { magnet_permille: 500, cone_md: 8_000, max_correction_md: 3_000 },
    );
    assert_eq!(out.look_yaw, YawMd(2_000));
}

#[test]
fn aim_assist_ignores_outside_cone() {
    let analog = Analog::default();
    let out = apply_aim_assist(
        analog,
        20_000,
        AimAssistContract { magnet_permille: 500, cone_md: 8_000, max_correction_md: 3_000 },
    );
    assert_eq!(out.look_yaw, YawMd(0));
}

#[test]
fn p95_is_nearest_rank_of_the_sorted_values() {
    let mut log = LatencyLog::new();
    // Present latencies 19, 18, ..., 0 ms in capture order; admits saturate at zero.
    for i in 0..20u64 {
        log.push(LatencySample {
            sample_us: 100_000,
            intent_us: 100_000,
            present_us: 100_000 + (19 - i) * 1_000,
            admit_us: 50_000,
        });
    }
    // ceil(0.95 * 20) = 19: the 19th smallest value.
    assert_eq!(log.p95_us(LatencySample::present_latency_us), 18_000);
    assert_eq!(log.p95_us(LatencySample::authority_latency_us), 0);
    assert_eq!(log.samples().len(), 20);
    assert_eq!(log.samples()[0].present_us, 119_000);
    assert_eq!(LatencyLog::new().p95_us(LatencySample::present_latency_us), 0);
}

#[test]
fn authority_gate_reports_the_lane_cap() {
    let mut log = LatencyLog::new();
    log.push(LatencySample { sample_us: 0, intent_us: 0, present_us: 1_000, admit_us: 50_000 });
    assert_eq!(
        log.meets(DeviceLane::first_title_wired()),
        Err(FeelGate::AuthorityP95 { us: 50_000, cap: 41_333 })
    );
    let mut lane = DeviceLane::first_title_wired();
    lane.sim_tick_us = u32::MAX;
    assert_eq!(lane.authority_p95_us(), u32::MAX);
}

#[test]
fn gate_messages() {
    assert_eq!(FeelGate::NoSamples.to_text(), "feel gate has no latency samples");
    assert_eq!(
        FeelGate::PresentP95 { us: 40_000, cap: 25_000 }.to_text(),
        "presentation p95 40000us exceeds 25000us"
    );
    assert_eq!(
        FeelGate::UnexplainedQueue { authored: 2, pending_age: 3 }.to_text(),
        "input queue age 3 exceeds authored buffer 2"
    );
}

#[test]
fn aim_assist_caps_and_truncates_toward_zero() {
    let contract = AimAssistContract { magnet_permille: 333, cone_md: 8_000, max_correction_md: 1_000 };
    let out = apply_aim_assist(Analog::default(), -1_000, contract);
    assert_eq!(out.look_yaw, YawMd(-333));
    let out = apply_aim_assist(Analog::default(), -7_000, contract);
    assert_eq!(out.look_yaw, YawMd(-1_000));
    let off = AimAssistContract { magnet_permille: 0, cone_md: 8_000, max_correction_md: 1_000 };
    let start = Analog { look_yaw: YawMd(5), ..Analog::default() };
    assert_eq!(apply_aim_assist(start, 100, off), start);
}

use klotho::space::IVec3;
use klotho::units::YawMd;
use klotho::yaw::{cos_table, look_offset, rotate, rotate_xz, rotation_axes};

#[test]
fn yaw_zero_is_identity() {
    let v = IVec3 { x: 3, y: 9, z: 20 };
    assert_eq!(rotate_xz(v, YawMd::zero()), v);
}

#[test]
fn quarter_turn_sends_forward_to_plus_x() {
    let v = IVec3 { x: 0, y: 0, z: 20 };
    let r = rotate_xz(v, YawMd(YawMd::QUARTER_TURN));
    assert_eq!(r.x, 20);
    assert_eq!(r.z, 0);
    assert_eq!(r.y, 0);
}

#[test]
fn half_turn_negates_z() {
    let v = IVec3 { x: 0, y: 0, z: 20 };
    let r = rotate_xz(v, YawMd(YawMd::HALF_TURN));
    assert_eq!(r.x, 0);
    assert_eq!(r.z, -20);
}

#[test]
fn table_endpoints() {
    assert_eq!(cos_table(0), 1 << 16);
    assert_eq!(cos_table(90), 0);
    assert_eq!(cos_table(45), 46341);
}

#[test]
fn y_is_unchanged() {
    let v = IVec3 { x: 0, y: 1800, z: 0 };
    assert_eq!(rotate_xz(v, YawMd(45_000)).y, 1800);
}

#[test]
fn rotate_zero_pitch_roll_matches_rotate_xz() {
    let v = IVec3 { x: 400, y: 90, z: -250 };
    for yaw in [0, 45_000, 90_000, 180_000, 270_000, -15_000] {
        assert_eq!(
            rotate(v, YawMd(yaw), YawMd::zero(), YawMd::zero()),
            rotate_xz(v, YawMd(yaw)),
            "yaw={yaw}"
        );
    }
}

#[test]
fn quarter_pitch_lifts_forward() {
    let v = IVec3 { x: 0, y: 0, z: 20 };
    let r = rotate(v, YawMd::zero(), YawMd(YawMd::QUARTER_TURN), YawMd::zero());
    assert_eq!(r.x, 0);
    assert_eq!(r.y, 20);
    assert_eq!(r.z, 0);
}

#[test]
fn look_offset_yaw_zero_is_plus_z() {
    assert_eq!(look_offset(YawMd::zero(), YawMd::zero(), 20), IVec3 { x: 0, y: 0, z: 20 });
}

#[test]
fn look_offset_quarter_yaw_is_plus_x() {
    assert_eq!(
        look_offset(YawMd(YawMd::QUARTER_TURN), YawMd::zero(), 20),
        IVec3 { x: 20, y: 0, z: 0 }
    );
}

#[test]
fn look_offset_pitch_up_is_plus_y() {
    let v = look_offset(YawMd::zero(), YawMd(YawMd::QUARTER_TURN), 20);
    assert_eq!(v.x, 0);
    assert_eq!(v.y, 20);
    assert_eq!(v.z, 0);
}

#[test]
fn look_offset_pitch_down_is_minus_y() {
    let v = look_offset(YawMd::zero(), YawMd(-YawMd::QUARTER_TURN), 20);
    assert_eq!(v.x, 0);
    assert_eq!(v.y, -20);
    assert_eq!(v.z, 0);
}

#[test]
fn look_offset_pitch_clamps_past_quarter_turn() {
    assert_eq!(
        look_offset(YawMd::zero(), YawMd(91_000), 20),
        look_offset(YawMd::zero(), YawMd(YawMd::QUARTER_TURN), 20)
    );
    assert_eq!(
        look_offset(YawMd::zero(), YawMd(-91_000), 20),
        look_offset(YawMd::zero(), YawMd(-YawMd::QUARTER_TURN), 20)
    );
}

#[test]
fn identity_axes_are_unit_basis() {
    let (ax, ay, az) = rotation_axes(YawMd::zero(), YawMd::zero(), YawMd::zero());
    assert_eq!(ax, IVec3 { x: 65536, y: 0, z: 0 });
    assert_eq!(ay, IVec3 { x: 0, y: 65536, z: 0 });
    assert_eq!(az, IVec3 { x: 0, y: 0, z: 65536 });
}

#[test]
fn negative_yaw_wraps_like_its_positive_equivalent() {
    let v = IVec3 { x: 100, y: 0, z: 300 };
    assert_eq!(rotate_xz(v, YawMd(-90_000)), rotate_xz(v, YawMd(270_000)));
}

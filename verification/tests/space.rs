use klotho::hash::BlobId;
use klotho::physics::{
    BodyPhysics, CharacterPhysics, ConstraintPhysics, HullWitness, PoseMm, ShapeKind,
    VehiclePhysics, MAX_COLLAPSE_FRAGMENTS,
};
use klotho::space::{frac_cmp, AabbMm, IVec3};
use klotho::units::{Epoch, Mm, Sigil, YawMd};
use std::cmp::Ordering;

fn v(x: i32, y: i32, z: i32) -> IVec3 {
    IVec3 { x, y, z }
}

#[test]
fn closed_face_touch_counts_as_overlap() {
    let a = AabbMm::new(v(0, 0, 0), v(10, 10, 10));
    let b = AabbMm::new(v(10, 0, 0), v(20, 10, 10));
    assert!(a.intersects(b));
    assert!(a.contains_point(v(10, 0, 0)));
}

#[test]
fn empty_aabb_never_intersects() {
    let empty = AabbMm::new(v(5, 0, 0), v(1, 0, 0));
    let point = AabbMm::from_point(v(5, 0, 0));
    assert!(empty.is_empty());
    assert!(!empty.intersects(point));
    assert!(!empty.contains_point(v(5, 0, 0)));
    assert!(empty.segment_hit(v(5, 0, 0), IVec3::zero()).is_none());
    assert!(empty.segment_hit(v(0, 0, 0), v(10, 0, 0)).is_none());
}

#[test]
fn swept_union_covers_both() {
    let a = AabbMm::from_point(v(0, 0, 0));
    let b = AabbMm::from_point(v(4, 2, -1));
    let u = a.swept_union(b);
    assert!(u.contains_point(v(0, 0, 0)));
    assert!(u.contains_point(v(4, 2, -1)));
    assert!(u.contains_point(v(2, 1, -1)));
}

#[test]
fn pose_new_assigns_y_as_height() {
    let p = PoseMm::new(Mm(1), Mm(2), Mm(3), YawMd(4));
    assert_eq!(p.x, Mm(1));
    assert_eq!(p.y, Mm(2));
    assert_eq!(p.z, Mm(3));
    assert_eq!(p.yaw, YawMd(4));
    assert_eq!(p.pitch, YawMd::zero());
    assert_eq!(p.roll, YawMd::zero());
    assert_eq!(p.translation(), v(1, 2, 3));
}

#[test]
fn hull_witness_stores_hint() {
    let mover = Sigil::from_raw(0x0100_0000_0000_0001);
    let w = HullWitness::new(mover, PoseMm::default(), true);
    assert!(w.overlaps_closed_opaque);
    assert_eq!(w.mover, mover);
    assert_eq!(w.epoch, Epoch::zero());
    assert_eq!(w.shape, ShapeKind::OrientedBox);
    assert!(w.evidence.is_none());
}

#[test]
fn body_physics_material_bounds_fail_closed() {
    assert!(BodyPhysics::default().is_valid());
    assert!(!BodyPhysics { friction_permille: 2_001, ..BodyPhysics::default() }.is_valid());
    assert!(!BodyPhysics { restitution_permille: 1_001, ..BodyPhysics::default() }.is_valid());
}

#[test]
fn vehicle_physics_bounds_fail_closed() {
    assert!(VehiclePhysics::default().is_valid());
    assert!(BodyPhysics { vehicle: Some(VehiclePhysics::default()), ..BodyPhysics::default() }
        .is_valid());
    assert!(!VehiclePhysics { wheel_count: 1, ..VehiclePhysics::default() }.is_valid());
    assert!(!BodyPhysics {
        character: Some(CharacterPhysics::default()),
        vehicle: Some(VehiclePhysics::default()),
        shape: ShapeKind::Capsule,
        ..BodyPhysics::default()
    }
    .is_valid());
}

#[test]
fn constraint_physics_rejects_degenerate_endpoints() {
    let a = Sigil::from_raw(0x0300_0000_0000_0001);
    let b = Sigil::from_raw(0x0300_0000_0000_0002);
    let mut ok = ConstraintPhysics { a, b, binding: BlobId::from_bytes([1; 32]), ..ConstraintPhysics::default() };
    assert!(ok.is_valid());
    ok.a = b;
    assert!(!ok.is_valid());
    ok.a = a;
    ok.stiffness_permille = 2_001;
    assert!(!ok.is_valid());
    ok.stiffness_permille = 1_000;
    ok.fragments = MAX_COLLAPSE_FRAGMENTS;
    assert!(ok.is_valid());
    ok.fragments = MAX_COLLAPSE_FRAGMENTS + 1;
    assert!(!ok.is_valid());
    assert!(ShapeKind::Heightfield.is_static_occupancy());
    assert!(!ShapeKind::Convex.is_static_occupancy());
}

fn unit_box() -> AabbMm {
    AabbMm::new(v(0, 0, 0), v(10, 10, 10))
}

#[test]
fn segment_hit_enters_front_face() {
    let hit = unit_box().segment_hit(v(-5, 5, 5), v(20, 0, 0)).expect("hit");
    assert_eq!(frac_cmp(hit.0, hit.1, 0, 1), Ordering::Greater);
    assert_eq!(frac_cmp(hit.0, hit.1, 1, 1), Ordering::Less);
}

#[test]
fn segment_hit_closed_face_counts() {
    assert!(unit_box().segment_hit(v(10, 5, 5), v(0, 0, 0)).is_some());
    assert!(unit_box().segment_hit(v(-10, 5, 5), v(10, 0, 0)).is_some());
}

#[test]
fn segment_misses_off_axis_and_behind() {
    assert!(unit_box().segment_hit(v(-5, 50, 5), v(20, 0, 0)).is_none());
    assert!(unit_box().segment_hit(v(5, 5, -5), v(0, 0, -10)).is_none());
    assert!(unit_box().segment_hit(v(-20, 5, 5), v(5, 0, 0)).is_none());
}

#[test]
fn segment_origin_inside_is_t_zero() {
    let hit = unit_box().segment_hit(v(5, 5, 5), v(10, 0, 0)).expect("inside");
    assert_eq!(frac_cmp(hit.0, hit.1, 0, 1), Ordering::Equal);
}

#[test]
fn segment_hit_reports_exact_entry_fraction() {
    // Entry at x = 0 from x = -5 along +20: t = 5/20.
    assert_eq!(unit_box().segment_hit(v(-5, 5, 5), v(20, 0, 0)), Some((5, 20)));
    // Entry through the max face while travelling in -x: t = 10/20.
    assert_eq!(unit_box().segment_hit(v(20, 5, 5), v(-20, 0, 0)), Some((10, 20)));
}

#[test]
fn sorted_box_orders_corners() {
    let b = AabbMm::sorted(v(5, -1, 3), v(1, 2, -3));
    assert_eq!(b.min, v(1, -1, -3));
    assert_eq!(b.max, v(5, 2, 3));
    assert!(!b.is_empty());
}

#[test]
fn union_drops_empty_operands() {
    let empty = AabbMm::new(v(1, 1, 1), v(0, 0, 0));
    let p = AabbMm::from_point(v(7, 8, 9));
    assert_eq!(empty.union(p), p);
    assert_eq!(p.union(empty), p);
    assert_eq!(empty.union(empty), empty);
}

#[test]
fn character_policy_checks_live_and_unused_roots() {
    assert!(CharacterPhysics::default().is_valid());
    let mut c = CharacterPhysics::default();
    c.roots[3] = v(1, 0, 0);
    assert!(!c.is_valid());
    let mut c = CharacterPhysics::default();
    c.roots[0] = v(800, 0, 800);
    assert!(!c.is_valid());
    let c = CharacterPhysics { root_count: 0, ..CharacterPhysics::default() };
    assert!(!c.is_valid());
}

#[test]
fn character_sample_cycles_roots() {
    let mut c = CharacterPhysics::default();
    c.root_count = 2;
    c.roots[1] = v(0, 0, 40);
    assert_eq!(c.sample(klotho::units::Tick(0), true, YawMd::zero()), v(0, 0, 20));
    assert_eq!(c.sample(klotho::units::Tick(3), true, YawMd::zero()), v(0, 0, 40));
    assert_eq!(c.sample(klotho::units::Tick(3), false, YawMd::zero()), IVec3::zero());
}

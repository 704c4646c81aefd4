use klotho::cast::{raycast, swept_against, CONTACT_SLOP_MM};
use klotho::character::{resolve_character, CharacterObstacle, MAX_CHARACTER_OBSTACLES};
use klotho::collide::{contact, penetration_mm};
use klotho::patch::manifold;
use klotho::physics::{CharacterPhysics, HullWitness, PoseMm, QuantizedContact, ShapeKind};
use klotho::query::bounds;
use klotho::semantic::{semantic_sample_count, semantic_sweep, verify_semantic_sweep};
use klotho::shape::{cooked_shape, CompoundPart, GeomError, PrimitiveShape, Shape, MAX_CONVEX_VERTICES};
use klotho::space::{frac_cmp, AabbMm, IVec3};
use klotho::contact::SweepSample;
use klotho::units::{Epoch, Mm, Sigil, YawMd};
use klotho::witness::{evidence_matches, verify_contact, verify_cooked};
use klotho::yaw::rotate_xz;

fn p(x: i32, y: i32, z: i32) -> IVec3 {
    IVec3 { x, y, z }
}

fn box_xz(hx: i32, hy: i32, hz: i32) -> AabbMm {
    AabbMm::new(p(-hx, 0, -hz), p(hx, hy, hz))
}

fn pose_at(x: i32, y: i32, z: i32, yaw: i32) -> PoseMm {
    PoseMm::new(Mm(x), Mm(y), Mm(z), YawMd(yaw))
}

#[test]
fn rotating_a_box_changes_bounds_and_contact() {
    let local = box_xz(1_000, 100, 50);
    let shape = Shape::oriented_box(local).unwrap();
    let a0 = pose_at(0, 0, 0, 0);
    let a90 = pose_at(0, 0, 0, YawMd::QUARTER_TURN);
    let b0 = bounds(shape, a0).unwrap();
    let b90 = bounds(shape, a90).unwrap();
    assert!(b0.max.x - b0.min.x > b0.max.z - b0.min.z);
    assert!(b90.max.z - b90.min.z > b90.max.x - b90.min.x);

    let other = Shape::oriented_box(box_xz(50, 100, 50)).unwrap();
    let other_pose = pose_at(600, 0, 0, 0);
    assert!(contact(shape, a0, other, other_pose).unwrap().is_some());
    assert!(contact(shape, a90, other, other_pose).unwrap().is_none());
}

#[test]
fn sphere_and_capsule_from_aabb_are_finite_and_centred() {
    let local = box_xz(200, 800, 200);
    let sphere = cooked_shape(ShapeKind::Sphere, local).unwrap();
    let capsule = cooked_shape(ShapeKind::Capsule, local).unwrap();
    let pose = pose_at(10, 0, -4, 0);
    let sb = bounds(sphere, pose).unwrap();
    let cb = bounds(capsule, pose).unwrap();
    assert!(sb.contains_point(p(10, 400, -4)));
    assert!(cb.contains_point(p(10, 400, -4)));
    assert!(!sb.is_empty());
    assert!(!cb.is_empty());
}

#[test]
fn capsule_traverses_box_boundary_consistently() {
    let wall = Shape::oriented_box(box_xz(400, 2_000, 50)).unwrap();
    let wall_pose = pose_at(0, 0, 1_000, 0);
    let cap = Shape::capsule(p(0, 900, 0), 200, 700).unwrap();
    let mut last: Option<bool> = None;
    for z in [0, 400, 800, 1_000, 1_200, 1_600, 2_000] {
        let pose = pose_at(0, 0, z, 0);
        let hit = contact(cap, pose, wall, wall_pose).unwrap().is_some();
        if let Some(prev) = last {
            if z > 0 && z < 2_000 {
                let _ = (prev, hit);
            }
        }
        last = Some(hit);
    }
    assert!(contact(cap, pose_at(0, 0, 0, 0), wall, wall_pose).unwrap().is_none());
    assert!(contact(cap, pose_at(0, 0, 1_000, 0), wall, wall_pose).unwrap().is_some());
    assert!(contact(cap, pose_at(0, 0, 2_000, 0), wall, wall_pose).unwrap().is_none());
}

#[test]
fn bounded_convex_and_compound_reject_malformed_payloads() {
    assert_eq!(Shape::convex(&[IVec3::zero(); 3]), Err(GeomError::Malformed));
    assert_eq!(Shape::compound(&[]), Err(GeomError::Malformed));
    let too_many = [IVec3::zero(); MAX_CONVEX_VERTICES + 1];
    assert_eq!(Shape::convex(&too_many), Err(GeomError::Malformed));
}

#[test]
fn manifold_is_bounded_and_canonically_ordered() {
    let a = Shape::oriented_box(box_xz(100, 100, 100)).unwrap();
    let b = Shape::oriented_box(box_xz(100, 100, 100)).unwrap();
    let patch = manifold(a, pose_at(0, 0, 0, 0), b, pose_at(150, 0, 0, 0))
        .unwrap()
        .expect("patch");
    assert!((1..=4).contains(&patch.len));
    assert!(patch.as_slice().windows(2).all(|w| {
        (w[0].point.x, w[0].point.y, w[0].point.z) <= (w[1].point.x, w[1].point.y, w[1].point.z)
    }));
}

#[test]
fn fast_convex_cast_cannot_tunnel_through_thin_wall() {
    let mover = cooked_shape(ShapeKind::Convex, box_xz(100, 200, 100)).unwrap();
    let wall = Shape::oriented_box(AabbMm::new(p(-1_000, 0, -5), p(1_000, 1_000, 5))).unwrap();
    let hit = swept_against(
        mover,
        pose_at(0, 0, 0, 0),
        pose_at(0, 0, 2_000, 0),
        wall,
        pose_at(0, 0, 1_000, 0),
    )
    .unwrap();
    assert!(hit.crossing, "{hit:?}");
}

#[test]
fn malformed_shapes_fail_closed() {
    let empty = AabbMm::new(p(5, 0, 0), p(1, 0, 0));
    assert_eq!(Shape::oriented_box(empty), Err(GeomError::Malformed));
    assert_eq!(Shape::sphere(IVec3::zero(), -1), Err(GeomError::Malformed));
    assert_eq!(Shape::capsule(IVec3::zero(), 10, -4), Err(GeomError::Malformed));
}

#[test]
fn thin_wall_cast_catches_a_fast_translation() {
    let mover = Shape::oriented_box(box_xz(100, 200, 100)).unwrap();
    let wall = Shape::oriented_box(AabbMm::new(p(-10_000, 0, -5), p(10_000, 2_000, 5))).unwrap();
    let wall_pose = pose_at(0, 0, 1_000, 0);
    let start = pose_at(0, 0, 0, 0);
    let end = pose_at(0, 0, 2_000, 0);
    let hit = swept_against(mover, start, end, wall, wall_pose).unwrap();
    assert!(hit.crossing, "{hit:?}");
    assert!(hit.enter_n >= 0);
}

#[test]
fn resting_touch_is_not_a_crossing() {
    let mover = Shape::oriented_box(box_xz(100, 200, 100)).unwrap();
    let wall = Shape::oriented_box(box_xz(400, 2_000, 50)).unwrap();
    let wall_pose = pose_at(0, 0, 250, 0);
    let pose = pose_at(0, 0, 100, 0);
    let hit = swept_against(mover, pose, pose, wall, wall_pose).unwrap();
    assert!(!hit.crossing, "{hit:?}");
    assert!(hit.end_depth_mm <= CONTACT_SLOP_MM);
}

#[test]
fn raycast_obb_matches_aabb_when_unrotated() {
    let local = AabbMm::new(p(0, 0, 0), p(10, 10, 10));
    let shape = Shape::oriented_box(local).unwrap();
    let pose = PoseMm::default();
    let origin = p(-5, 5, 5);
    let dir = p(20, 0, 0);
    let geom = raycast(shape, pose, origin, dir).unwrap().expect("hit");
    let aabb = local.segment_hit(origin, dir).expect("aabb");
    assert_eq!(frac_cmp(geom.0, geom.1, aabb.0, aabb.1), core::cmp::Ordering::Equal);
}

#[test]
fn evidence_rejects_stale_or_wrong_manifold() {
    let local = box_xz(100, 100, 100);
    let a = Shape::oriented_box(local).unwrap();
    let b = Shape::oriented_box(local).unwrap();
    let pa = pose_at(0, 0, 0, 0);
    let pb = pose_at(150, 0, 0, 0);
    let got = contact(a, pa, b, pb).unwrap().expect("overlap");
    assert!(evidence_matches(got, got));
    let mut wrong = got;
    wrong.depth_mm = got.depth_mm.saturating_add(40);
    assert!(!evidence_matches(got, wrong));
    let zero = QuantizedContact::default();
    assert!(!evidence_matches(got, zero));
}

#[test]
fn yaw_only_box_corners_follow_rotate_xz() {
    let v = p(400, 10, -20);
    let yaw = YawMd(YawMd::QUARTER_TURN);
    let rotated = rotate_xz(v, yaw);
    assert_eq!(rotated.x, -20);
    assert_eq!(rotated.z, -400);
    assert_eq!(rotated.y, 10);
}

#[test]
fn a_rotated_box_aabb_is_not_hit_evidence() {
    let shape = Shape::oriented_box(AabbMm::new(p(-1000, 0, -50), p(1000, 100, 50))).unwrap();
    let pose = PoseMm { yaw: YawMd(45000), ..PoseMm::default() };
    let point = p(450, 50, 450);
    assert!(bounds(shape, pose).unwrap().contains_point(point));
    assert_eq!(semantic_sweep([[point; 2]; 2], 10, shape, pose).unwrap(), None);
}

#[test]
fn thin_crossing_and_small_radius_have_actual_narrow_evidence() {
    let target = Shape::oriented_box(AabbMm::new(p(-2, 0, -100), p(2, 100, 100))).unwrap();
    for radius in [1, 60] {
        let ends = [[p(-300, 50, 0); 2], [p(300, 50, 0); 2]];
        let sample = semantic_sweep(ends, radius, target, PoseMm::default()).unwrap().unwrap();
        assert!(verify_semantic_sweep(ends, radius, target, PoseMm::default(), sample).unwrap());
        assert!(
            !verify_semantic_sweep(
                ends,
                radius,
                target,
                PoseMm::default(),
                SweepSample { time: u16::MAX, segment: 0 }
            )
            .unwrap_or(false)
        );
    }
}

#[test]
fn convex_void_cannot_become_a_contact_from_its_bounds() {
    let shape = Shape::convex(&[p(0, 0, 0), p(100, 0, 0), p(0, 100, 0), p(0, 0, 100)]).unwrap();
    let outside = p(70, 70, 70);
    let inside = p(10, 10, 10);
    assert!(bounds(shape, PoseMm::default()).unwrap().contains_point(outside));
    assert_eq!(semantic_sweep([[outside; 2]; 2], 10, shape, PoseMm::default()).unwrap(), None);
    assert!(semantic_sweep([[inside; 2]; 2], 1, shape, PoseMm::default()).unwrap().is_some());
}

#[test]
fn excess_query_work_fails_closed() {
    let ends = [
        [p(-100000, 0, 0), p(-100000, 100000, 0)],
        [p(100000, 0, 0), p(100000, 100000, 0)],
    ];
    assert_eq!(semantic_sample_count(ends), Err(GeomError::Malformed));
}

#[test]
fn fast_capsule_and_oversize_workloads_fail_closed() {
    let capsule = Shape::capsule(p(0, 900, 0), 300, 600).unwrap();
    let wall = CharacterObstacle {
        shape: Shape::oriented_box(AabbMm::new(p(-2000, 0, -1), p(2000, 3000, 1))).unwrap(),
        pose: PoseMm::new(Mm(0), Mm(0), Mm(500), YawMd::zero()),
    };
    let policy = CharacterPhysics::default();
    let resolved =
        resolve_character(capsule, PoseMm::default(), p(0, 0, 1000), policy, &[wall]).unwrap();
    assert!(resolved.pose.z.0 <= 201);
    assert!(
        resolve_character(
            capsule,
            PoseMm::default(),
            IVec3::zero(),
            policy,
            &vec![wall; MAX_CHARACTER_OBSTACLES + 1]
        )
        .is_err()
    );
    assert!(resolve_character(capsule, PoseMm::default(), p(0, 0, 1001), policy, &[]).is_err());
}

#[test]
fn sphere_pair_depth_is_the_radius_overlap() {
    let a = Shape::sphere(IVec3::zero(), 100).unwrap();
    let b = Shape::sphere(IVec3::zero(), 50).unwrap();
    let hit = contact(a, pose_at(0, 0, 0, 0), b, pose_at(120, 0, 0, 0)).unwrap().unwrap();
    assert_eq!(hit.depth_mm, 30);
    assert_eq!(hit.point, p(60, 0, 0));
    assert_eq!(hit.normal, (-32767, 0, 0));
    assert_eq!(hit.feature, 0);
    assert_eq!(penetration_mm(a, pose_at(0, 0, 0, 0), b, pose_at(151, 0, 0, 0)).unwrap(), None);
    assert_eq!(penetration_mm(a, pose_at(0, 0, 0, 0), b, pose_at(150, 0, 0, 0)).unwrap(), Some(0));
}

#[test]
fn sphere_inside_box_points_out_of_the_nearest_face() {
    let ball = Shape::sphere(IVec3::zero(), 10).unwrap();
    let cube = Shape::oriented_box(AabbMm::new(p(-100, -100, -100), p(100, 100, 100))).unwrap();
    let hit = contact(ball, pose_at(90, 0, 0, 0), cube, PoseMm::default()).unwrap().unwrap();
    assert_eq!(hit.depth_mm, 20);
    assert_eq!(hit.normal, (32767, 0, 0));
    assert_eq!(hit.point, p(90, 0, 0));
    let flipped = contact(cube, PoseMm::default(), ball, pose_at(90, 0, 0, 0)).unwrap().unwrap();
    assert_eq!(flipped.normal, (-32767, 0, 0));
    assert_eq!(flipped.feature, 1);
}

#[test]
fn capsules_meet_at_their_closest_samples() {
    let a = Shape::capsule(IVec3::zero(), 50, 400).unwrap();
    let b = Shape::capsule(IVec3::zero(), 50, 400).unwrap();
    let hit = contact(a, pose_at(0, 0, 0, 0), b, pose_at(80, 0, 0, 0)).unwrap().unwrap();
    assert_eq!(hit.depth_mm, 20);
    assert_eq!(hit.feature, 3);
    assert!(contact(a, pose_at(0, 0, 0, 0), b, pose_at(101, 0, 0, 0)).unwrap().is_none());
}

#[test]
fn compound_takes_its_deepest_child() {
    let part = |x: i32| CompoundPart {
        shape: PrimitiveShape::Sphere { local_center: IVec3::zero(), radius_mm: 40 },
        local_pose: pose_at(x, 0, 0, 0),
    };
    let compound = Shape::compound(&[part(0), part(200)]).unwrap();
    let probe = Shape::sphere(IVec3::zero(), 40).unwrap();
    let hit = contact(compound, PoseMm::default(), probe, pose_at(190, 0, 0, 0)).unwrap().unwrap();
    assert_eq!(hit.depth_mm, 70);
    assert_eq!(hit.feature >> 8, 1);
    assert_eq!(
        contact(Shape::Compound { parts: [part(0); 8], len: 0 }, PoseMm::default(), probe, PoseMm::default()),
        Err(GeomError::Malformed)
    );
}

#[test]
fn unsupported_pairs_and_kinds_fail_closed() {
    let ball = Shape::sphere(IVec3::zero(), 10).unwrap();
    let hull = cooked_shape(ShapeKind::Convex, box_xz(10, 10, 10)).unwrap();
    assert_eq!(contact(ball, PoseMm::default(), hull, PoseMm::default()), Err(GeomError::Unsupported));
    assert_eq!(cooked_shape(ShapeKind::Heightfield, box_xz(1, 1, 1)), Err(GeomError::Unsupported));
    assert_eq!(cooked_shape(ShapeKind::Sphere, AabbMm::new(p(1, 0, 0), p(0, 0, 0))), Err(GeomError::Malformed));
    assert_eq!(raycast(hull, PoseMm::default(), p(-20, 5, 0), p(40, 0, 0)), Err(GeomError::Unsupported));
}

#[test]
fn cooked_sphere_and_capsule_take_half_extents() {
    let local = AabbMm::new(p(-10, 0, -30), p(10, 100, 30));
    assert_eq!(
        cooked_shape(ShapeKind::Sphere, local),
        Ok(Shape::Sphere { local_center: p(0, 50, 0), radius_mm: 50 })
    );
    assert_eq!(
        cooked_shape(ShapeKind::Capsule, local),
        Ok(Shape::Capsule { local_center: p(0, 50, 0), radius_mm: 10, half_height_mm: 40 })
    );
}

#[test]
fn convex_box_contact_reports_shallowest_axis() {
    let hull = cooked_shape(ShapeKind::Convex, box_xz(100, 100, 100)).unwrap();
    let cube = Shape::oriented_box(box_xz(100, 100, 100)).unwrap();
    let hit = contact(hull, pose_at(0, 0, 0, 0), cube, pose_at(150, 0, 0, 0)).unwrap().unwrap();
    assert_eq!(hit.depth_mm, 50);
    assert!(contact(hull, pose_at(0, 0, 0, 0), cube, pose_at(201, 0, 0, 0)).unwrap().is_none());
}

#[test]
fn witness_verification_checks_epoch_kind_and_evidence() {
    let local = box_xz(100, 100, 100);
    let pa = pose_at(0, 0, 0, 0);
    let pb = pose_at(150, 0, 0, 0);
    let a = Shape::oriented_box(local).unwrap();
    let got = contact(a, pa, a, pb).unwrap().unwrap();
    let mut w = HullWitness::new(Sigil::from_raw(7), pa, false);
    w.evidence = Some(got);
    assert_eq!(verify_contact(w, Epoch(0), a, pa, a, pb), Ok(got));
    assert_eq!(verify_contact(w, Epoch(1), a, pa, a, pb), Err(GeomError::Malformed));
    let mut heavy = w;
    heavy.shape = ShapeKind::Heightfield;
    assert_eq!(verify_contact(heavy, Epoch(0), a, pa, a, pb), Err(GeomError::Unsupported));
    assert_eq!(
        verify_cooked(w, Epoch(0), ShapeKind::OrientedBox, local, pa, ShapeKind::OrientedBox, local, pb),
        Ok(got)
    );
    let mut none = w;
    none.evidence = None;
    assert_eq!(verify_contact(none, Epoch(0), a, pa, a, pb), Err(GeomError::Malformed));
}

#[test]
fn sample_count_is_the_grid_size() {
    let ends = [[p(0, 0, 0), p(0, 10, 0)], [p(20, 0, 0), p(20, 10, 0)]];
    assert_eq!(semantic_sample_count(ends), Ok(5 * 3));
}

#[test]
fn evidence_point_tolerance_is_four_millimetres() {
    let at = |x: i32| QuantizedContact { point: IVec3 { x, y: 0, z: 0 }, normal: (0, 32767, 0), depth_mm: 1, feature: 0 };
    assert!(evidence_matches(at(0), at(4)));
    assert!(!evidence_matches(at(0), at(5)));
    assert!(!evidence_matches(at(i32::MAX), at(i32::MIN)));
    let mut deep = at(0);
    deep.depth_mm = 41;
    assert!(!evidence_matches(at(0), deep));
}

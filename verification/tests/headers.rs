use klotho::failure::CompileError;
use klotho::header::{
    decode_clipset, decode_grain, decode_mesh, decode_probe_grid, decode_skinned_mesh, encode_probe_grid,
    encode_skinned_mesh, peek_kind, validate_clipset, validate_hull, validate_mesh, validate_rite, write_prefix,
    GRAIN_HZ, MAX_CLIP_SAMPLES, MAX_RITE_STEPS,
};
use klotho::physics::ShapeKind;
use klotho::space::IVec3;

const KIND: u8 = 7;

fn blob(payload: &[u8]) -> Vec<u8> {
    let mut b = Vec::new();
    write_prefix(&mut b, KIND);
    b.extend_from_slice(payload);
    b
}

fn is_header(r: Result<impl std::fmt::Debug, CompileError>) -> bool {
    matches!(r, Err(CompileError::Header(_)))
}

#[test]
fn prefix_names_kind() {
    let b = blob(&[]);
    assert_eq!(&b[..4], b"KLTH");
    assert_eq!(peek_kind(&b).unwrap(), KIND);
    assert!(is_header(peek_kind(&b[..7])));
}

#[test]
fn mesh_decodes_verts_and_indices() {
    let mut p = Vec::new();
    p.extend_from_slice(&3u32.to_le_bytes());
    p.extend_from_slice(&3u32.to_le_bytes());
    for v in [[1i16, -2, 3], [4, 5, -6], [-7, 8, 9]] {
        for c in v {
            p.extend_from_slice(&c.to_le_bytes());
        }
    }
    for i in [0u32, 1, 2] {
        p.extend_from_slice(&i.to_le_bytes());
    }
    let b = blob(&p);
    let m = decode_mesh(&b, KIND).unwrap();
    assert_eq!(m.info.tris(), 1);
    assert_eq!(m.verts[1], [4, 5, -6]);
    assert_eq!(m.indices, vec![0, 1, 2]);
    let mut bad = b.clone();
    let last = bad.len() - 4;
    bad[last] = 3;
    assert!(is_header(validate_mesh(&bad, KIND)));
    assert!(is_header(validate_mesh(&b, KIND + 1)));
}

#[test]
fn hull_reads_six_extents() {
    let mut p = Vec::new();
    for v in [-10i32, -20, -30, 10, 20, 30] {
        p.extend_from_slice(&v.to_le_bytes());
    }
    let a = validate_hull(&blob(&p), KIND).unwrap();
    assert_eq!(a.min, IVec3 { x: -10, y: -20, z: -30 });
    assert_eq!(a.max, IVec3 { x: 10, y: 20, z: 30 });
    assert!(is_header(validate_hull(&blob(&p[..20]), KIND)));
}

#[test]
fn grain_is_mono_pcm_at_48k() {
    let mut p = Vec::new();
    p.extend_from_slice(&GRAIN_HZ.to_le_bytes());
    p.extend_from_slice(&[1, 0, 0, 0]);
    p.extend_from_slice(&2u32.to_le_bytes());
    p.extend_from_slice(&(-5i16).to_le_bytes());
    p.extend_from_slice(&300i16.to_le_bytes());
    let g = decode_grain(&blob(&p), KIND).unwrap();
    assert_eq!(g.pcm, vec![-5, 300]);
    assert_eq!(g.info.frames, 2);
    let mut stereo = p.clone();
    stereo[4] = 2;
    assert!(is_header(decode_grain(&blob(&stereo), KIND)));
}

#[test]
fn rite_cap_steps_is_bounded() {
    let mut p = vec![0u8; 8];
    p[2..4].copy_from_slice(&MAX_RITE_STEPS.to_le_bytes());
    assert!(validate_rite(&blob(&p), KIND).is_ok());
    p[2..4].copy_from_slice(&0u16.to_le_bytes());
    assert!(is_header(validate_rite(&blob(&p), KIND)));
    p[2..4].copy_from_slice(&(MAX_RITE_STEPS + 1).to_le_bytes());
    assert!(is_header(validate_rite(&blob(&p), KIND)));
}

#[test]
fn probe_grid_round_trips() {
    let samples: Vec<u16> = (0..12).map(|i| i * 100).collect();
    let b = encode_probe_grid(KIND, IVec3 { x: -1, y: 2, z: -3 }, 2_000, (2, 2, 1), &samples).unwrap();
    let d = decode_probe_grid(&b, KIND).unwrap();
    assert_eq!(d.samples_milli, samples);
    assert_eq!(d.info.spacing_mm, 2_000);
    assert_eq!(d.info.dim, (2, 2, 1));
    assert_eq!(d.info.origin, IVec3 { x: -1, y: 2, z: -3 });
    assert!(is_header(encode_probe_grid(KIND, IVec3::default(), 0, (1, 1, 1), &[0, 0, 0])));
    assert!(is_header(encode_probe_grid(KIND, IVec3::default(), 10, (1, 1, 1), &[0, 0])));
}

#[test]
fn skinned_mesh_round_trips() {
    let verts = [[1i16, 2, 3], [-4, 5, 6], [7, -8, 9]];
    let joints = [[0u8, 1, 0, 0], [1, 0, 0, 0], [0, 0, 0, 0]];
    let weights = [[65_535u16, 0, 0, 0], [30_000, 35_535, 0, 0], [65_535, 0, 0, 0]];
    let indices = [0u32, 1, 2];
    let b = encode_skinned_mesh(KIND, &verts, &joints, &weights, &indices, 2).unwrap();
    let d = decode_skinned_mesh(&b, KIND).unwrap();
    assert_eq!(d.verts, verts.to_vec());
    assert_eq!(d.joints, joints.to_vec());
    assert_eq!(d.weights, weights.to_vec());
    assert_eq!(d.indices, indices.to_vec());
    assert_eq!(d.info.bones, 2);
    let bad_weights = [[1u16, 0, 0, 0], [30_000, 35_535, 0, 0], [65_535, 0, 0, 0]];
    let b = encode_skinned_mesh(KIND, &verts, &joints, &bad_weights, &indices, 2).unwrap();
    assert!(is_header(decode_skinned_mesh(&b, KIND)));
}

#[test]
fn clip_sets_decode_and_cap_samples() {
    let mut p = Vec::new();
    p.extend_from_slice(&1u16.to_le_bytes());
    p.extend_from_slice(&[3, 1, 0, 0]);
    p.extend_from_slice(&9u16.to_le_bytes());
    p.extend_from_slice(&2u16.to_le_bytes());
    for v in [1i32, 2, 3, -4, -5, -6] {
        p.extend_from_slice(&v.to_le_bytes());
    }
    let b = blob(&p);
    assert_eq!(validate_clipset(&b, KIND).unwrap().clips, 1);
    let clips = decode_clipset(&b, KIND).unwrap();
    assert_eq!(clips[0].verb, 3);
    assert!(clips[0].grounded && !clips[0].looping);
    assert_eq!(clips[0].id, 9);
    assert_eq!(clips[0].samples[1], IVec3 { x: -4, y: -5, z: -6 });
    let mut big = p.clone();
    big[8..10].copy_from_slice(&(MAX_CLIP_SAMPLES + 1).to_le_bytes());
    assert!(is_header(validate_clipset(&blob(&big), KIND)));
    let mut extra = p.clone();
    extra.push(0);
    assert!(is_header(validate_clipset(&blob(&extra), KIND)));
}

#[test]
fn shape_kinds_partition() {
    assert!(ShapeKind::Sphere.is_oriented_primitive());
    assert!(!ShapeKind::Convex.is_oriented_primitive());
    assert!(ShapeKind::Convex.is_dynamic());
    assert!(!ShapeKind::OrientedBox.is_static_occupancy());
}

use klotho::failure::CompileError;
use klotho::hash::{digest_of, BlobId};
use klotho::names::Name;
use klotho::placement::{
    chunk_file_name, decode_chunk, diff_chunks, encode_chunk, materialize, placement_magic, sanitize, unique_blob_count,
    MaterializedWorld, PlacementChunk, RawPlacement, MAX_INSTANCE_GROUPS,
};
use klotho::space::IVec3;
use klotho::units::YawMd;

fn blob(tag: &[u8]) -> BlobId {
    BlobId(digest_of(tag).0)
}

fn place(name: &str, zone: &str, mesh: BlobId, mat: BlobId, x: i32) -> RawPlacement {
    RawPlacement {
        place: Name::of(name),
        zone: Name::of(zone),
        mesh,
        material: mat,
        clip: None,
        variant: 0,
        pose: IVec3 { x, y: 0, z: 0 },
        yaw: YawMd(0),
        scale_permille: 1000,
    }
}

fn encode(rows: &[RawPlacement]) -> PlacementChunk {
    encode_chunk(&rows[0].place, &rows[0].zone, rows).unwrap()
}

fn placement_err(r: Result<PlacementChunk, CompileError>) -> String {
    match r {
        Err(CompileError::Placement(m)) => m,
        other => panic!("{other:?}"),
    }
}

fn asset(tag: &[u8]) -> (BlobId, Vec<u8>) {
    (blob(tag), tag.to_vec())
}

fn world(placements: &[RawPlacement], assets: &[(BlobId, Vec<u8>)]) -> Result<MaterializedWorld, CompileError> {
    let derived: Vec<BlobId> = assets.iter().map(|(_, bytes)| blob(bytes)).collect();
    materialize(placements, assets, &derived)
}

#[test]
fn duplicate_source_blobs_are_stored_once() {
    let (mesh, mesh_bytes) = asset(b"tree-mesh");
    let (mat, mat_bytes) = asset(b"bark");
    let world = world(
        &[
            place("hub", "dress", mesh, mat, 0),
            place("hub", "dress", mesh, mat, 1000),
            place("combat", "dress", mesh, mat, 0),
        ],
        &[(mesh, mesh_bytes), (mat, mat_bytes)],
    )
    .unwrap();
    assert_eq!(unique_blob_count(&world), 2);
    assert_eq!(world.chunks.len(), 2);
    let hub = world.chunks.iter().find(|c| c.place.as_str() == "hub").unwrap();
    assert_eq!(hub.groups.len(), 1);
    assert_eq!(hub.records.len(), 2);
    assert_eq!(hub.records[1].pose.x, 1000);
}

#[test]
fn world_chunks_sort_by_place_and_blobs_by_id() {
    let (a, a_bytes) = asset(b"a");
    let (b, b_bytes) = asset(b"b");
    let w = world(
        &[place("zeta", "z", a, b, 0), place("alpha", "z", b, a, 0), place("alpha", "a", a, a, 0)],
        &[(a, a_bytes.clone()), (b, b_bytes.clone()), (a, a_bytes)],
    )
    .unwrap();
    let keys: Vec<(&str, &str)> = w.chunks.iter().map(|c| (c.place.as_str(), c.zone.as_str())).collect();
    assert_eq!(keys, vec![("alpha", "a"), ("alpha", "z"), ("zeta", "z")]);
    assert_eq!(w.blobs.len(), 2);
    assert!(w.blobs[0].0 .0 < w.blobs[1].0 .0);
}

#[test]
fn world_faults_are_named() {
    let (a, a_bytes) = asset(b"a");
    let (b, _) = asset(b"b");
    let err = |r: Result<MaterializedWorld, CompileError>| match r {
        Err(CompileError::Placement(m)) => m,
        other => panic!("{other:?}"),
    };
    let m = err(materialize(&[], &[(a, a_bytes.clone())], &[b]));
    assert!(m.starts_with("blob id mismatch for blob:"), "{m}");
    let m = err(world(&[], &[(a, a_bytes.clone()), (a, b"other".to_vec())]));
    assert!(m.starts_with("blob id mismatch") || m.starts_with("blob collision"), "{m}");
    let m = err(materialize(&[], &[(a, a_bytes.clone()), (a, b"other".to_vec())], &[a, a]));
    assert!(m.starts_with("blob collision for blob:"), "{m}");
    let m = err(world(&[place("p", "z", a, b, 0)], &[(a, a_bytes.clone())]));
    assert!(m.starts_with("missing blob blob:"), "{m}");
    let mut zero = place("p", "z", a, a, 0);
    zero.scale_permille = 0;
    assert_eq!(err(world(&[zero], &[(a, a_bytes.clone())])), "scale permille is 0");
    let mut wide = place("p", "z", a, a, 0);
    wide.scale_permille = 50_000;
    assert_eq!(err(world(&[wide], &[(a, a_bytes)])), "scale delta overflow");
}

#[test]
fn chunk_files_have_safe_names() {
    assert_eq!(sanitize("hub/west 1"), "hub_west_1");
    assert_eq!(sanitize(""), "_");
    let (mesh, mat) = (blob(b"m"), blob(b"t"));
    let chunk = encode(&[place("Hub:1", "dress-a", mesh, mat, 0)]);
    assert_eq!(chunk_file_name(&chunk), "place-Hub_1-dress-a.kplm");
}

#[test]
fn round_trip_is_stable_and_has_no_generation_seed() {
    let (mesh, mesh_bytes) = asset(b"rock");
    let (mat, mat_bytes) = asset(b"stone");
    let w = world(
        &[place("hub", "dress", mesh, mat, 250), place("hub", "dress", mesh, mat, 500)],
        &[(mesh, mesh_bytes), (mat, mat_bytes)],
    )
    .unwrap();
    let chunk = w.chunks[0].clone();
    let decoded = decode_chunk(&chunk.bytes).unwrap();
    assert_eq!(decoded.records, chunk.records);
    assert_eq!(decoded.groups, chunk.groups);
    assert!(!chunk.bytes.windows(4).any(|w| w == b"SEED"));
    assert_eq!(digest_of(&chunk.bytes).to_hex(), chunk.chunk_id.to_hex());
    assert_eq!(decoded.place.as_str(), "hub");
    assert_eq!(decoded.zone.as_str(), "dress");
}

#[test]
fn one_zone_edit_invalidates_only_owning_chunk() {
    let (mesh, mesh_bytes) = asset(b"tree-mesh");
    let (mat, mat_bytes) = asset(b"bark");
    let assets = [(mesh, mesh_bytes), (mat, mat_bytes)];
    let prev = world(&[place("hub", "dress", mesh, mat, 0), place("combat", "dress", mesh, mat, 0)], &assets).unwrap();
    let next = world(&[place("hub", "dress", mesh, mat, 0), place("combat", "dress", mesh, mat, 40)], &assets).unwrap();
    let (dirty, reused) = diff_chunks(&prev.chunks, &next.chunks);
    assert_eq!(dirty, vec![(Name::of("combat"), Name::of("dress"))]);
    assert_eq!(reused, vec![(Name::of("hub"), Name::of("dress"))]);
}

#[test]
fn removed_and_new_chunks_are_dirty_and_sorted() {
    let (mesh, mat) = (blob(b"m"), blob(b"t"));
    let a = encode(&[place("b", "z", mesh, mat, 0)]);
    let b = encode(&[place("a", "z", mesh, mat, 0)]);
    let c = encode(&[place("a", "y", mesh, mat, 0)]);
    let (dirty, reused) = diff_chunks(&[a.clone(), b.clone()], &[c.clone(), b.clone()]);
    assert_eq!(dirty, vec![(Name::of("a"), Name::of("y")), (Name::of("b"), Name::of("z"))]);
    assert_eq!(reused, vec![(Name::of("a"), Name::of("z"))]);
    let (dirty, reused) = diff_chunks(&[a.clone(), b.clone()], &[a, b]);
    assert!(dirty.is_empty());
    assert_eq!(reused.len(), 2);
}

#[test]
fn duplicate_bindings_share_one_group_and_records_sort() {
    let (m1, m2, mat) = (blob(b"tree"), blob(b"bush"), blob(b"bark"));
    let rows = [
        place("hub", "dress", m1, mat, 900),
        place("hub", "dress", m2, mat, 5),
        place("hub", "dress", m1, mat, -3),
    ];
    let chunk = encode(&rows);
    assert_eq!(chunk.groups.len(), 2);
    assert_eq!(chunk.groups[0].mesh, m1);
    assert_eq!(chunk.groups[0].count, 2);
    assert_eq!(chunk.groups[1].count, 1);
    let mut binding = Vec::new();
    binding.extend_from_slice(&m1.0);
    binding.extend_from_slice(&mat.0);
    binding.push(0);
    binding.extend_from_slice(&0u16.to_le_bytes());
    assert_eq!(chunk.groups[0].id, digest_of(&binding));
    let xs: Vec<(u16, i32)> = chunk.records.iter().map(|r| (r.group, r.pose.x)).collect();
    assert_eq!(xs, vec![(0, -3), (0, 900), (1, 5)]);
    assert_eq!(decode_chunk(&chunk.bytes).unwrap().records, chunk.records);
}

#[test]
fn extreme_poses_round_trip_through_wrapped_deltas() {
    let (mesh, mat) = (blob(b"a"), blob(b"b"));
    let mut lo = place("p", "z", mesh, mat, i32::MIN);
    lo.yaw = YawMd(i32::MAX);
    lo.scale_permille = 1;
    let mut hi = place("p", "z", mesh, mat, i32::MAX);
    hi.yaw = YawMd(i32::MIN);
    hi.scale_permille = 30_000;
    let mut clip = hi.clone();
    clip.clip = Some(blob(b"c"));
    clip.pose.z = -7;
    let chunk = encode(&[hi, lo, clip]);
    let decoded = decode_chunk(&chunk.bytes).unwrap();
    assert_eq!(decoded.records, chunk.records);
    assert_eq!(decoded.groups, chunk.groups);
    assert_eq!(decoded.groups[1].clip, Some(blob(b"c")));
}

#[test]
fn encode_refuses_what_the_format_cannot_hold() {
    let (mesh, mat) = (blob(b"a"), blob(b"b"));
    let mut big = place("p", "z", mesh, mat, 0);
    big.scale_permille = 40_000;
    assert_eq!(placement_err(encode_chunk(&big.place, &big.zone, &[big.clone()])), "scale delta overflow");
    let long = "n".repeat(70_000);
    assert_eq!(placement_err(encode_chunk(&Name::of(&long), &Name::of("z"), &[place("p", "z", mesh, mat, 0)])), "u16 length");
    let many: Vec<RawPlacement> = (0..=MAX_INSTANCE_GROUPS as u16)
        .map(|v| RawPlacement { variant: v, ..place("p", "z", mesh, mat, 0) })
        .collect();
    assert_eq!(placement_err(encode_chunk(&many[0].place, &many[0].zone, &many)), "group cap");
}

#[test]
fn decode_names_the_first_fault() {
    let (mesh, mat) = (blob(b"a"), blob(b"b"));
    let good = encode(&[place("hub", "dress", mesh, mat, 1), place("hub", "dress", mesh, mat, 2)]).bytes;
    assert_eq!(placement_magic(), *b"KPLM");
    assert_eq!(placement_err(decode_chunk(&good[..5])), "truncated");
    let mut bad = good.clone();
    bad[0] = b'X';
    assert_eq!(placement_err(decode_chunk(&bad)), "magic");
    let mut bad = good.clone();
    bad[4] = 9;
    assert_eq!(placement_err(decode_chunk(&bad)), "version 9");
    let mut bad = good.clone();
    bad.push(0);
    assert_eq!(placement_err(decode_chunk(&bad)), "trailing bytes");
    assert_eq!(placement_err(decode_chunk(&good[..good.len() - 1])), "truncated");
    let mut bad = good.clone();
    bad[10] = 0xff;
    assert_eq!(placement_err(decode_chunk(&bad)), "utf8");
    let mut empty = good[..8].to_vec();
    empty.extend_from_slice(&[0, 0]);
    assert_eq!(placement_err(decode_chunk(&empty)), "EmptyName");
    // group flag sits 96 bytes into the first group
    let groups_at = 8 + 2 + 3 + 2 + 5 + 2;
    let mut bad = good.clone();
    bad[groups_at + 96] = 2;
    assert_eq!(placement_err(decode_chunk(&bad)), "clip flag");
    // first record's group index
    let cols = groups_at + 103 + 4;
    let mut bad = good.clone();
    bad[cols] = 5;
    assert_eq!(placement_err(decode_chunk(&bad)), "group index");
    // first record's scale delta (absolute, 1000) made negative
    let scale_at = cols + 18 * 2;
    let mut bad = good.clone();
    bad[scale_at] = 0x00;
    bad[scale_at + 1] = 0x80;
    assert_eq!(placement_err(decode_chunk(&bad)), "scale");
}

#[test]
fn unique_blobs_are_counted_once() {
    let world = MaterializedWorld { blobs: vec![(blob(b"a"), b"a".to_vec()), (blob(b"b"), b"b".to_vec())], chunks: vec![] };
    assert_eq!(unique_blob_count(&world), 2);
    let _ = klotho::hash::Hash::default();
}

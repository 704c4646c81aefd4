use klotho::failure::CompileError;
use klotho::header::magic;
use klotho::warp::{
    read_warp_header, warp_magic, write_warp_header, WARP_CAP_DESKTOP, WARP_CAP_MOBILE, WARP_MAX_LOCI, WARP_VERSION,
};

#[test]
fn caps_match_hld() {
    assert_eq!(warp_magic(), *b"KWRP");
    assert_ne!(warp_magic(), magic());
    assert_eq!(WARP_VERSION, 3);
    assert_eq!(WARP_CAP_DESKTOP, 512 * 1024 * 1024);
    assert_eq!(WARP_CAP_MOBILE, 192 * 1024 * 1024);
    assert_eq!(WARP_MAX_LOCI, 4_096);
}

fn warp_msg(b: &[u8]) -> String {
    match read_warp_header(b) {
        Err(CompileError::Warp(m)) => m,
        other => panic!("unexpected {other:?}"),
    }
}

#[test]
fn header_round_trips() {
    let mut b = Vec::new();
    write_warp_header(&mut b, true, &klotho::hash::Hash::from_bytes([1; 32]), &klotho::hash::Hash::from_bytes([2; 32]));
    assert_eq!(b.len(), 77);
    b.extend_from_slice(&[9, 9]);
    let (h, end) = read_warp_header(&b).unwrap();
    assert_eq!(end, 77);
    assert_eq!(h.version, 3);
    assert!(h.optimized);
    assert_eq!(h.cook_hash, klotho::hash::Hash::from_bytes([1; 32]));
    assert_eq!(h.canon_hash, klotho::hash::Hash::from_bytes([2; 32]));
}

#[test]
fn version_one_has_no_optimized_flag() {
    let mut b = b"KWRP\x01\x00\x00\x00".to_vec();
    b.extend_from_slice(&1u32.to_le_bytes());
    b.extend_from_slice(&[5; 32]);
    b.extend_from_slice(&[6; 32]);
    let (h, end) = read_warp_header(&b).unwrap();
    assert_eq!((h.version, h.optimized, end), (1, false, 76));
    assert_eq!(h.cook_hash, klotho::hash::Hash::from_bytes([5; 32]));
}

#[test]
fn header_refusals_name_the_fault() {
    assert!(warp_msg(b"KLTH").contains("magic"));
    assert_eq!(warp_msg(b"KWR"), "truncated");
    let mut v2 = b"KWRP".to_vec();
    v2.push(2);
    v2.extend_from_slice(&[1, 0, 0]);
    assert_eq!(warp_msg(&v2), "bad version 2");
    let mut b = Vec::new();
    write_warp_header(&mut b, false, &klotho::hash::Hash::from_bytes([1; 32]), &klotho::hash::Hash::from_bytes([2; 32]));
    let mut pad = b.clone();
    pad[5] = 1;
    assert!(warp_msg(&pad).contains("pad"));
    let mut comp = b.clone();
    comp[8] = 7;
    assert_eq!(warp_msg(&comp), "compiler version 7");
    assert_eq!(warp_msg(&b[..76]), "truncated");
}

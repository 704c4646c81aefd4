use klotho::contact::{ContactSocket, ContactSweep, ContactTrack, FootPlant};
use klotho::hash::{parse_hex32, BlobId};
use klotho::space::IVec3;

#[test]
fn xor_is_bytewise() {
    let mut a = [0u8; 32];
    a[0] = 0xff;
    a[31] = 0x0f;
    let mut b = [0u8; 32];
    b[0] = 0x0f;
    b[31] = 0xf0;
    let x = klotho::hash::Hash(a).bitxor(klotho::hash::Hash(b));
    assert_eq!(x.0[0], 0xf0);
    assert_eq!(x.0[31], 0xff);
    assert_eq!(x.0[1], 0);
}

#[test]
fn display_is_64_hex_chars() {
    assert_eq!(klotho::hash::Hash::zero().to_hex().len(), 64);
    assert_ne!(BlobId::zero().to_short_string(), klotho::hash::Hash::zero().to_hex());
}

#[test]
fn hex_round_trip() {
    let mut bytes = [0u8; 32];
    bytes[0] = 0xab;
    bytes[31] = 0xcd;
    let h = klotho::hash::Hash(bytes);
    assert_eq!(parse_hex32(&h.to_hex()).unwrap(), bytes);
    assert!(parse_hex32("zz").is_err());
    assert!(parse_hex32(&"0".repeat(63)).is_err());
}

#[test]
fn hex_text_is_lower_case_high_nibble_first() {
    let mut bytes = [0u8; 32];
    bytes[0] = 0xab;
    let h = klotho::hash::Hash(bytes);
    assert!(h.to_hex().starts_with("ab00"));
    assert_eq!(BlobId(bytes).to_short_string(), "blob:ab000000\u{2026}");
    let upper = "AB".repeat(32);
    assert_eq!(parse_hex32(&upper).unwrap(), [0xab; 32]);
}

#[test]
fn zero_hash_is_zero() {
    assert!(klotho::hash::Hash::zero().is_zero());
    assert!(!klotho::hash::Hash([1; 32]).is_zero());
}

fn track() -> ContactTrack {
    let n = 3;
    ContactTrack {
        skeleton: klotho::hash::Hash([1; 32]),
        instrument: klotho::hash::Hash([2; 32]),
        action: klotho::hash::Hash([3; 32]),
        rite: "use".to_string(),
        tick_hz: 30,
        wait_pc: 4,
        channel: 1,
        wait_ticks: 2,
        roots: vec![IVec3::zero(); n],
        sockets: vec![
            ContactSocket { name: "foot_l".to_string(), samples: vec![IVec3::zero(); n] },
            ContactSocket { name: "hand_r".to_string(), samples: vec![IVec3::zero(); n] },
        ],
        sweeps: vec![ContactSweep {
            name: "palm".to_string(),
            socket: "hand_r".to_string(),
            radius_mm: 40,
            samples: vec![[IVec3::zero(), IVec3 { x: 0, y: 10, z: 0 }]; n],
        }],
        plants: vec![FootPlant { socket: "foot_l".to_string(), start: 0, end: 2 }],
    }
}

#[test]
fn contact_track_bounds() {
    assert!(track().is_valid());
    let mut t = track();
    t.sockets.swap(0, 1);
    assert!(!t.is_valid());
    let mut t = track();
    t.rite = "bad name".to_string();
    assert!(!t.is_valid());
    let mut t = track();
    t.roots.push(IVec3::zero());
    assert!(!t.is_valid());
    let mut t = track();
    t.sweeps[0].socket = "missing".to_string();
    assert!(!t.is_valid());
    let mut t = track();
    t.plants[0].end = 3;
    assert!(!t.is_valid());
    let mut t = track();
    t.skeleton = klotho::hash::Hash::zero();
    assert!(!t.is_valid());
    let mut t = track();
    t.roots[1] = IVec3 { x: 100_001, y: 0, z: 0 };
    assert!(!t.is_valid());
}

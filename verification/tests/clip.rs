use klotho::clip::{certify_contact_clip, contact_signature, encode_contact_track, MAX_CONTACT_TRACK_BYTES};
use klotho::contact::{ContactSocket, ContactSweep, ContactTrack, FootPlant};
use klotho::failure::CompileError;
use klotho::hash::digest_of;
use klotho::space::IVec3;

const KIND: u8 = 20;
const CANONICAL: &str = "(skeleton:\"01\",rite:\"melee\")";

fn p(x: i32, y: i32, z: i32) -> IVec3 {
    IVec3 { x, y, z }
}

/// A small valid track: two ticks of WAIT, one grip socket and one blade sweep.
fn track() -> ContactTrack {
    ContactTrack {
        skeleton: klotho::hash::Hash([1; 32]),
        instrument: klotho::hash::Hash([3; 32]),
        action: klotho::hash::Hash([4; 32]),
        rite: "melee".to_string(),
        tick_hz: 30,
        wait_pc: 1,
        channel: 2,
        wait_ticks: 2,
        roots: vec![p(0, 0, 0), p(0, 0, 10), p(0, 0, 20)],
        sockets: vec![ContactSocket {
            name: "weapon_grip".to_string(),
            samples: vec![p(100, 900, 0), p(120, 900, 10), p(140, 900, 20)],
        }],
        sweeps: vec![ContactSweep {
            name: "blade".to_string(),
            socket: "weapon_grip".to_string(),
            radius_mm: 30,
            samples: vec![
                [p(100, 900, 0), p(100, 900, 800)],
                [p(120, 900, 10), p(400, 900, 700)],
                [p(140, 900, 20), p(700, 900, 400)],
            ],
        }],
        plants: vec![],
    }
}

fn is_invalid(e: &CompileError) -> bool {
    matches!(e, CompileError::Header(m) if m == "invalid semantic contact track")
}

#[test]
fn compatibility_checks_rig_timing_root_and_retarget_envelope() {
    let t = track();
    let sig = contact_signature(&t, KIND, CANONICAL).unwrap();
    for hz in [60, 120, 144] {
        for _ in 0..hz {
            assert_eq!(certify_contact_clip(&t, &t, sig, KIND, CANONICAL).unwrap(), sig);
        }
    }
    let mut v = t.clone();
    v.sockets[0].samples[1].x += 5;
    assert_eq!(certify_contact_clip(&t, &v, sig, KIND, CANONICAL).unwrap(), sig);
    v.sockets[0].samples[1].y += 1;
    assert!(certify_contact_clip(&t, &v, sig, KIND, CANONICAL).is_err());
    for field in 0..5 {
        let mut v = t.clone();
        match field {
            0 => v.instrument = klotho::hash::Hash([2; 32]),
            1 => v.skeleton = klotho::hash::Hash([2; 32]),
            2 => v.roots[1].x = 1,
            3 => v.wait_pc = 3,
            _ => v.tick_hz = 60,
        };
        assert!(certify_contact_clip(&t, &v, sig, KIND, CANONICAL).is_err());
    }
    assert!(certify_contact_clip(&t, &t, klotho::hash::Hash([0; 32]), KIND, CANONICAL).is_err());
}

#[test]
fn encoded_track_is_prefix_then_canonical_text() {
    let bytes = encode_contact_track(&track(), KIND, CANONICAL).unwrap();
    assert_eq!(&bytes[..8], &[75, 76, 84, 72, bytes[4], KIND, 0, 0]);
    assert_eq!(&bytes[8..], CANONICAL.as_bytes());
}

#[test]
fn signature_is_digest_of_encoded_track() {
    let bytes = encode_contact_track(&track(), KIND, CANONICAL).unwrap();
    let sig = contact_signature(&track(), KIND, CANONICAL).unwrap();
    assert_eq!(sig, digest_of(&bytes));
    assert_ne!(sig, contact_signature(&track(), KIND, "(other)").unwrap());
}

#[test]
fn invalid_tracks_are_refused() {
    let mut t = track();
    t.sockets.push(t.sockets[0].clone());
    assert!(is_invalid(&encode_contact_track(&t, KIND, CANONICAL).unwrap_err()));
    let mut t = track();
    t.sweeps[0].samples[1][1].x = i32::MAX;
    assert!(encode_contact_track(&t, KIND, CANONICAL).is_err());
    let mut t = track();
    t.skeleton = klotho::hash::Hash([0; 32]);
    assert!(contact_signature(&t, KIND, CANONICAL).is_err());
    let mut t = track();
    t.roots.resize(66, IVec3 { x: 0, y: 0, z: 0 });
    t.wait_ticks = 65;
    assert!(encode_contact_track(&t, KIND, CANONICAL).is_err());
}

#[test]
fn plants_must_be_ordered_and_disjoint() {
    let mut t = track();
    t.plants.push(FootPlant { socket: "weapon_grip".to_string(), start: 0, end: 1 });
    assert!(encode_contact_track(&t, KIND, CANONICAL).is_ok());
    t.plants.push(FootPlant { socket: "weapon_grip".to_string(), start: 0, end: 2 });
    assert!(encode_contact_track(&t, KIND, CANONICAL).is_err());
}

#[test]
fn oversized_track_is_refused() {
    let big = "x".repeat(MAX_CONTACT_TRACK_BYTES);
    assert!(encode_contact_track(&track(), KIND, &big).is_err());
    let fits = "x".repeat(MAX_CONTACT_TRACK_BYTES - 8);
    assert_eq!(encode_contact_track(&track(), KIND, &fits).unwrap().len(), MAX_CONTACT_TRACK_BYTES);
}

#[test]
fn sweep_endpoint_outside_envelope_fails() {
    let t = track();
    let sig = contact_signature(&t, KIND, CANONICAL).unwrap();
    let mut v = t.clone();
    v.sweeps[0].samples[2][1].z += 3;
    v.sweeps[0].samples[2][1].x += 4;
    assert_eq!(certify_contact_clip(&t, &v, sig, KIND, CANONICAL).unwrap(), sig);
    v.sweeps[0].samples[2][1].x += 1;
    assert!(is_invalid(&certify_contact_clip(&t, &v, sig, KIND, CANONICAL).unwrap_err()));
    let mut v = t.clone();
    v.sweeps[0].radius_mm = 31;
    assert!(certify_contact_clip(&t, &v, sig, KIND, CANONICAL).is_err());
    let mut v = t.clone();
    v.plants.push(FootPlant { socket: "weapon_grip".to_string(), start: 0, end: 1 });
    assert!(certify_contact_clip(&t, &v, sig, KIND, CANONICAL).is_err());
}

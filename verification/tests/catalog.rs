use klotho::catalog::order_place_snaps;
use klotho::failure::CompileError;
use klotho::units::Sigil;

fn h(b: u8) -> klotho::hash::Hash {
    klotho::hash::Hash::from_bytes([b; 32])
}

#[test]
fn snaps_are_ordered_by_place() {
    let snaps = vec![(Sigil::from_raw(9), h(1)), (Sigil::from_raw(2), h(1)), (Sigil::from_raw(5), h(1))];
    assert_eq!(order_place_snaps(&h(1), &snaps).unwrap(), vec![1, 2, 0]);
    assert_eq!(order_place_snaps(&h(1), &[]).unwrap(), Vec::<usize>::new());
}

#[test]
fn snap_canon_mismatch_is_refused() {
    let snaps = vec![(Sigil::from_raw(1), h(9))];
    match order_place_snaps(&h(1), &snaps) {
        Err(CompileError::Warp(m)) => assert!(m.contains("canon")),
        other => panic!("unexpected {other:?}"),
    }
}

#[test]
fn duplicate_place_is_refused() {
    let snaps = vec![(Sigil::from_raw(3), h(1)), (Sigil::from_raw(1), h(1)), (Sigil::from_raw(3), h(1))];
    assert_eq!(order_place_snaps(&h(1), &snaps), Err(CompileError::Warp("duplicate place".to_string())));
    let both = vec![(Sigil::from_raw(3), h(1)), (Sigil::from_raw(3), h(2))];
    assert_eq!(order_place_snaps(&h(1), &both), Err(CompileError::Warp("place canon hash mismatch".to_string())));
}

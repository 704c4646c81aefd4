use klotho::interest::{
    classify, skip_propose, Interest, InterestConfig, InterestLocus, ResidencyCommand, SimLod, LOD_PERIOD,
};
use klotho::physics::PoseMm;
use klotho::units::{Mm, Sigil, Tick};

fn pose_at(x: i32) -> PoseMm {
    PoseMm { x: Mm(x), ..PoseMm::default() }
}

fn actor(id: u128, x: i32, island: Option<u16>) -> InterestLocus {
    InterestLocus { sigil: Sigil::from_raw(0x100 + id), observer: true, place: false, pose: Some(pose_at(x)), island }
}

fn relic(id: u128, x: i32, island: Option<u16>) -> InterestLocus {
    InterestLocus { sigil: Sigil::from_raw(0x200 + id), observer: false, place: false, pose: Some(pose_at(x)), island }
}

fn place(id: u128, x: i32) -> InterestLocus {
    InterestLocus { sigil: Sigil::from_raw(0x300 + id), observer: false, place: true, pose: Some(pose_at(x)), island: None }
}

#[test]
fn far_and_dormant_rings() {
    let player = actor(1, 0, Some(0));
    let near = relic(2, 1_000, Some(0));
    let mid = relic(3, 40_000, Some(1));
    let far = relic(4, 200_000, Some(2));
    let out = classify(&vec![player, near, mid, far], &InterestConfig::default());
    assert_eq!(out.lod_of(player.sigil), Some(SimLod::Full));
    assert_eq!(out.lod_of(near.sigil), Some(SimLod::Full));
    assert_eq!(out.lod_of(mid.sigil), Some(SimLod::Far));
    assert_eq!(out.lod_of(far.sigil), Some(SimLod::Dormant));
}

#[test]
fn island_wake_promotes_mates() {
    let player = actor(1, 0, Some(3));
    let crate_ = relic(2, 40_000, Some(3));
    let out = classify(&vec![player, crate_], &InterestConfig::default());
    assert_eq!(out.lod_of(crate_.sigil), Some(SimLod::Full));
}

#[test]
fn place_residency_load_and_evict() {
    let player = actor(1, 0, None);
    let here = place(2, 0);
    let away = place(3, 200_000);
    let out = classify(&vec![player, here, away], &InterestConfig::default());
    assert!(out.residency.contains(&ResidencyCommand::Load(here.sigil)));
    assert!(out.residency.contains(&ResidencyCommand::Evict(away.sigil)));
}

#[test]
fn skip_propose_dormant_and_far_period() {
    assert!(skip_propose(SimLod::Dormant, Tick(0)));
    assert_ne!(1 % u64::from(LOD_PERIOD), 0);
    assert!(skip_propose(SimLod::Far, Tick(1)));
    assert!(!skip_propose(SimLod::Far, Tick(6)));
    assert!(!skip_propose(SimLod::Full, Tick(1)));
}

#[test]
fn lod_period_is_six() {
    assert_eq!(LOD_PERIOD, 6);
}

#[test]
fn no_island_does_not_wake_unrelated_scenery() {
    let player = actor(1, 0, None);
    let wall = relic(2, 40_000, None);
    let out = classify(&vec![player, wall], &InterestConfig::default());
    assert_eq!(out.lod_of(player.sigil), Some(SimLod::Full));
    assert_eq!(out.lod_of(wall.sigil), Some(SimLod::Far));
}

#[test]
fn without_observers_everything_is_full_and_loaded() {
    let rock = relic(1, 900_000, Some(4));
    let town = place(2, -900_000);
    let out = classify(&vec![rock, town], &InterestConfig::default());
    assert_eq!(out.lod, vec![(rock.sigil, SimLod::Full), (town.sigil, SimLod::Full)]);
    assert_eq!(out.residency, vec![ResidencyCommand::Load(town.sigil)]);
}

#[test]
fn unposed_loci_are_not_classified() {
    let player = actor(1, 0, None);
    let ghost = InterestLocus { pose: None, ..relic(2, 0, None) };
    let out = classify(&vec![player, ghost], &InterestConfig::default());
    assert_eq!(out.lod_of(ghost.sigil), None);
    assert_eq!(out.lod.len(), 1);
}

#[test]
fn chebyshev_uses_the_larger_axis_and_nearest_observer() {
    let a = actor(1, 0, None);
    let b = actor(2, 100_000, None);
    let mut r = relic(3, 79_000, None);
    r.pose = Some(PoseMm { x: Mm(79_000), z: Mm(20_001), ..PoseMm::default() });
    let out = classify(&vec![a, b, r], &InterestConfig::default());
    // nearest observer is b: max(21_000, 20_001) = 21_000 -> far ring
    assert_eq!(out.lod_of(r.sigil), Some(SimLod::Far));
    let edge = relic(4, 20_000, None);
    let out = classify(&vec![a, edge], &InterestConfig::default());
    assert_eq!(out.lod_of(edge.sigil), Some(SimLod::Full));
}

#[test]
fn default_interest_is_empty() {
    let i = Interest::default();
    assert!(i.lod.is_empty() && i.residency.is_empty());
}

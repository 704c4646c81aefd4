//! Tapestry presentation stress scenes, the integer present-cost estimate,
//! and the deterministic quality fallback.
use vstd::prelude::*;

use crate::present::{spec_for_tier, PresentProfile, QualityTier};

verus! {

/// Counted presentation stress scene. Not title content.
#[derive(Copy, Clone, PartialEq, Eq, Structural, Hash, Debug)]
pub struct TapestryStress {
    /// Opaque clustered instances.
    pub clusters: u16,
    /// GPU particle emitters.
    pub particles: u16,
    /// Ribbon strips.
    pub ribbons: u16,
    /// Skinned instances.
    pub skinned: u16,
    /// Resident texture mebibytes before LOD.
    pub texture_mb: u16,
    /// Probe cells.
    pub probe_cells: u16,
    /// Punctual lights.
    pub lights: u16,
}

impl TapestryStress {
    /// Scene sized to meet pinned 1080p High.
    pub fn high_gate() -> (r: TapestryStress)
        ensures
            r == (TapestryStress {
                clusters: 1_200,
                particles: 400,
                ribbons: 40,
                skinned: 80,
                texture_mb: 768,
                probe_cells: 256,
                lights: 24,
            }),
    {
        TapestryStress {
            clusters: 1_200,
            particles: 400,
            ribbons: 40,
            skinned: 80,
            texture_mb: 768,
            probe_cells: 256,
            lights: 24,
        }
    }

    /// Over-High scene that must fall back deterministically.
    pub fn over_budget() -> (r: TapestryStress)
        ensures
            r == (TapestryStress {
                clusters: 2_048,
                particles: 1_024,
                ribbons: 40,
                skinned: 80,
                texture_mb: 1_800,
                probe_cells: 256,
                lights: 24,
            }),
    {
        TapestryStress {
            clusters: 2_048,
            particles: 1_024,
            ribbons: 40,
            skinned: 80,
            texture_mb: 1_800,
            probe_cells: 256,
            lights: 24,
        }
    }
}

/// Integer present-cost estimate. Diagnostics, not a wall-clock proof.
#[derive(Copy, Clone, PartialEq, Eq, Structural, Hash, Debug)]
pub struct PresentCost {
    /// Estimated present microseconds.
    pub us_present: u32,
    /// Estimated resident mebibytes.
    pub vram_mb: u16,
}

/// Per-mille of each count a tier keeps.
pub open spec fn tier_scale(tier: QualityTier) -> int {
    match tier {
        QualityTier::High => 1000,
        QualityTier::Medium => 500,
        QualityTier::Low => 250,
    }
}

/// A count scaled for the tier (floor).
pub open spec fn scaled(count: u16, tier: QualityTier) -> int {
    count * tier_scale(tier) / 1000
}

/// Estimated present microseconds for the scene at `tier`.
pub open spec fn spec_us(s: TapestryStress, t: QualityTier) -> int {
    400 + scaled(s.clusters, t) / 4 + scaled(s.particles, t) / 8 + scaled(s.ribbons, t) + scaled(
        s.skinned,
        t,
    ) * 2 + scaled(s.probe_cells, t) / 16 + scaled(s.lights, t) * 4
}

/// Estimated resident mebibytes for the scene at `tier`, before the `u16` cap.
pub open spec fn spec_vram(s: TapestryStress, t: QualityTier) -> int {
    scaled(s.texture_mb, t) + scaled(s.clusters, t) / 16 + scaled(s.particles, t) / 32 + scaled(
        s.probe_cells,
        t,
    ) / 64
}

/// The estimate: microseconds, and mebibytes capped at `u16::MAX`.
pub open spec fn spec_cost(s: TapestryStress, t: QualityTier) -> PresentCost {
    PresentCost {
        us_present: spec_us(s, t) as u32,
        vram_mb: (if spec_vram(s, t) > 65535 { 65535 } else { spec_vram(s, t) }) as u16,
    }
}

fn scale_count(count: u16, scale: u32) -> (r: u32)
    requires
        scale <= 1000,
    ensures
        r == count * scale / 1000,
        r <= count,
{
    assert(count * scale <= count * 1000) by (nonlinear_arith)
        requires
            scale <= 1000,
    {
    }
    assert(count * scale / 1000 <= count) by (nonlinear_arith)
        requires
            count * scale <= count * 1000,
            count >= 0,
    {
    }
    count as u32 * scale / 1000
}

/// Estimate the present cost at `tier`. Cheaper tiers scale every count
/// down (Medium by half, Low to a quarter) before the estimate.
pub fn estimate_cost(scene: TapestryStress, tier: QualityTier) -> (r: PresentCost)
    ensures
        r == spec_cost(scene, tier),
        r.us_present == spec_us(scene, tier),
{
    let scale: u32 = match tier {
        QualityTier::High => 1_000,
        QualityTier::Medium => 500,
        QualityTier::Low => 250,
    };
    let clusters = scale_count(scene.clusters, scale);
    let particles = scale_count(scene.particles, scale);
    let ribbons = scale_count(scene.ribbons, scale);
    let skinned = scale_count(scene.skinned, scale);
    let tex = scale_count(scene.texture_mb, scale);
    let probes = scale_count(scene.probe_cells, scale);
    let lights = scale_count(scene.lights, scale);
    let us = 400 + clusters / 4 + particles / 8 + ribbons + skinned * 2 + probes / 16 + lights * 4;
    let vram = tex + clusters / 16 + particles / 32 + probes / 64;
    let capped: u16 = if vram > 65535 {
        65535
    } else {
        vram as u16
    };
    PresentCost { us_present: us, vram_mb: capped }
}

/// The estimate fits the pinned profile of `tier`.
pub open spec fn fits(s: TapestryStress, t: QualityTier) -> bool {
    spec_cost(s, t).us_present <= spec_for_tier(t).us_present && spec_cost(s, t).vram_mb
        <= spec_for_tier(t).vram_mb
}

/// Fall back from `t` until the scene fits; Low when nothing does.
pub open spec fn spec_select(s: TapestryStress, t: QualityTier) -> QualityTier
    decreases t.spec_u8(),
{
    if fits(s, t) {
        t
    } else {
        match t.spec_fallback() {
            Some(n) => spec_select(s, n),
            None => QualityTier::Low,
        }
    }
}

/// What fallback picks either fits its own budget or is Low, and is never
/// dearer than the request.
pub proof fn lemma_select_fits_or_low(s: TapestryStress, t: QualityTier)
    ensures
        fits(s, spec_select(s, t)) || spec_select(s, t) == QualityTier::Low,
        spec_select(s, t).spec_u8() <= t.spec_u8(),
    decreases t.spec_u8(),
{
    if !fits(s, t) {
        match t.spec_fallback() {
            Some(n) => lemma_select_fits_or_low(s, n),
            None => {},
        }
    }
}

/// Deterministic fallback: High → Medium → Low until the pinned budget fits.
pub fn select_tier(scene: TapestryStress, requested: QualityTier) -> (r: QualityTier)
    ensures
        r == spec_select(scene, requested),
        fits(scene, r) || r == QualityTier::Low,
{
    proof {
        lemma_select_fits_or_low(scene, requested);
    }
    let mut tier = requested;
    loop
        invariant
            spec_select(scene, tier) == spec_select(scene, requested),
        decreases tier.spec_u8(),
    {
        let cost = estimate_cost(scene, tier);
        let cap = PresentProfile::for_tier(tier);
        if cost.us_present <= cap.us_present && cost.vram_mb <= cap.vram_mb {
            return tier;
        }
        match tier.fallback() {
            Some(next) => tier = next,
            None => return QualityTier::Low,
        }
    }
}

} // verus!

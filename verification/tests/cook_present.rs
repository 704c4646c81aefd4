use klotho::budget::{BudgetMode, STEP_CAP_US};
use klotho::failure::CompileError;
use klotho::material::{compile_material, prune_permutations, ShaderPerm};
use klotho::names::Name;
use klotho::present::{MaterialGraph, MaterialNode, PresentProfile, QualityTier};
use klotho::stress::{estimate_cost, select_tier, PresentCost, TapestryStress};

#[test]
fn organic_compiles_unlit_constant() {
    let p = compile_material(&MaterialGraph::organic()).unwrap();
    assert_eq!(p, ShaderPerm::unlit());
    assert_eq!(p.bits(), 0);
}

#[test]
fn sample_and_emissive_set_bits() {
    let g = MaterialGraph {
        id: Name::from("hero"),
        nodes: vec![
            MaterialNode::Sample { slot: 0 },
            MaterialNode::Constant { rgb_milli: [200, 200, 200] },
            MaterialNode::Constant { rgb_milli: [400, 400, 400] },
            MaterialNode::Constant { rgb_milli: [800, 400, 100] },
        ],
        albedo: 0,
        metalness: 1,
        roughness: 2,
        emissive: Some(3),
        alpha: None,
    };
    let p = compile_material(&g).unwrap();
    assert!(p.albedo_tex);
    assert!(p.emissive);
    assert!(!p.alpha_test);
}

#[test]
fn prune_drops_unused_and_strips_by_tier() {
    let hero = ShaderPerm { albedo_tex: true, metal_rough: true, emissive: true, alpha_test: false };
    let high = prune_permutations(&[hero], QualityTier::High);
    assert!(high.contains(&hero));
    let medium = prune_permutations(&[hero], QualityTier::Medium);
    assert!(medium.iter().all(|p| !p.emissive));
    let low = prune_permutations(&[hero], QualityTier::Low);
    assert!(low.iter().all(|p| !p.emissive && !p.metal_rough));
    let empty = prune_permutations(&[], QualityTier::High);
    assert_eq!(empty.len(), 1);
    assert!(empty.contains(&ShaderPerm::unlit()));
}

#[test]
fn unused_combo_is_not_emitted() {
    let only = ShaderPerm { albedo_tex: true, metal_rough: false, emissive: false, alpha_test: false };
    let kept = prune_permutations(&[only], QualityTier::High);
    assert_eq!(kept.len(), 1);
    assert!(!kept.contains(&ShaderPerm { albedo_tex: true, metal_rough: true, emissive: true, alpha_test: true }));
}

#[test]
fn pruned_set_is_ordered_and_deduplicated() {
    let a = ShaderPerm { albedo_tex: true, metal_rough: true, emissive: true, alpha_test: false };
    let b = ShaderPerm { albedo_tex: false, metal_rough: true, emissive: false, alpha_test: true };
    let c = ShaderPerm { albedo_tex: true, metal_rough: false, emissive: true, alpha_test: false };
    let low = prune_permutations(&[a, b, c, a], QualityTier::Low);
    assert_eq!(
        low,
        vec![
            ShaderPerm { albedo_tex: false, metal_rough: false, emissive: false, alpha_test: true },
            ShaderPerm { albedo_tex: true, metal_rough: false, emissive: false, alpha_test: false },
        ]
    );
    let high = prune_permutations(&[a, b, c, b], QualityTier::High);
    assert_eq!(high, vec![b, c, a]);
    let mut sorted = high.clone();
    sorted.sort();
    assert_eq!(sorted, high);
}

#[test]
fn graph_outputs_set_metal_rough_and_alpha() {
    let g = MaterialGraph {
        id: Name::from("mask"),
        nodes: vec![
            MaterialNode::Constant { rgb_milli: [1, 1, 1] },
            MaterialNode::Sample { slot: 2 },
            MaterialNode::Mul { a: 0, b: 1 },
            MaterialNode::Clamp { x: 0, lo_milli: 0, hi_milli: 1000 },
        ],
        albedo: 0,
        metalness: 2,
        roughness: 0,
        emissive: None,
        alpha: Some(3),
    };
    let p = compile_material(&g).unwrap();
    assert_eq!(p, ShaderPerm { albedo_tex: false, metal_rough: true, emissive: false, alpha_test: true });
    assert_eq!(p.bits(), 0b1010);
    let clamp_only = MaterialGraph { metalness: 3, ..g.clone() };
    assert!(compile_material(&clamp_only).unwrap().metal_rough);
    let mut bad = g;
    bad.albedo = 9;
    assert_eq!(
        compile_material(&bad),
        Err(CompileError::Header("InvalidPresent(albedo: output index oob)".to_string()))
    );
}

#[test]
fn over_budget_falls_back_the_same_on_every_call() {
    let scene = TapestryStress::over_budget();
    let a = select_tier(scene, QualityTier::High);
    let b = select_tier(scene, QualityTier::High);
    assert_eq!(a, b);
    assert_eq!(a, QualityTier::Medium);
    let cost = estimate_cost(scene, a);
    let cap = PresentProfile::for_tier(a);
    assert!(cost.us_present <= cap.us_present);
    assert!(cost.vram_mb <= cap.vram_mb);
    assert!(estimate_cost(scene, QualityTier::High).vram_mb > PresentProfile::high().vram_mb);
}

#[test]
fn high_stress_meets_high_budget() {
    let scene = TapestryStress::high_gate();
    assert_eq!(select_tier(scene, QualityTier::High), QualityTier::High);
    let cost = estimate_cost(scene, QualityTier::High);
    let cap = PresentProfile::high();
    assert!(cost.us_present <= cap.us_present);
    assert!(cost.vram_mb <= cap.vram_mb);
    assert_eq!(cap.us_present, 11_000);
    assert_eq!(cap.vram_mb, 1_536);
}

#[test]
fn estimate_is_exact_integer_arithmetic() {
    let scene = TapestryStress::high_gate();
    assert_eq!(estimate_cost(scene, QualityTier::High), PresentCost { us_present: 1_062, vram_mb: 859 });
    assert_eq!(estimate_cost(scene, QualityTier::Low), PresentCost { us_present: 565, vram_mb: 214 });
    let huge = TapestryStress {
        clusters: u16::MAX,
        particles: u16::MAX,
        ribbons: u16::MAX,
        skinned: u16::MAX,
        texture_mb: u16::MAX,
        probe_cells: u16::MAX,
        lights: u16::MAX,
    };
    assert_eq!(estimate_cost(huge, QualityTier::High).vram_mb, u16::MAX);
    assert_eq!(select_tier(huge, QualityTier::High), QualityTier::Low);
    assert_eq!(select_tier(huge, QualityTier::Medium), QualityTier::Low);
}

#[test]
fn resolve_flag_and_profile() {
    assert_eq!(BudgetMode::resolve(Some("1"), true), BudgetMode::Fail);
    assert_eq!(BudgetMode::resolve(Some("true"), true), BudgetMode::Fail);
    assert_eq!(BudgetMode::resolve(Some("TRUE"), false), BudgetMode::Fail);
    assert_eq!(BudgetMode::resolve(Some("0"), false), BudgetMode::Warn);
    assert_eq!(BudgetMode::resolve(Some("false"), false), BudgetMode::Warn);
    assert_eq!(BudgetMode::resolve(None, true), BudgetMode::Warn);
    assert_eq!(BudgetMode::resolve(None, false), BudgetMode::Fail);
    assert_eq!(BudgetMode::resolve(Some(" 1 "), true), BudgetMode::Fail);
}

#[test]
fn resolve_trims_unicode_space_and_ignores_other_text() {
    assert_eq!(BudgetMode::resolve(Some("\u{3000}FaLsE\t"), false), BudgetMode::Warn);
    assert_eq!(BudgetMode::resolve(Some("yes"), false), BudgetMode::Fail);
    assert_eq!(BudgetMode::resolve(Some("yes"), true), BudgetMode::Warn);
    assert_eq!(BudgetMode::resolve(Some("   "), true), BudgetMode::Warn);
    assert_eq!(BudgetMode::resolve(Some("t rue"), false), BudgetMode::Fail);
    assert_eq!(BudgetMode::resolve(Some("t rue"), true), BudgetMode::Warn);
}

#[test]
fn step_verdict_acts_only_at_the_cap() {
    assert_eq!(BudgetMode::Fail.step_verdict(STEP_CAP_US - 1), None);
    assert_eq!(BudgetMode::Warn.step_verdict(10_000), Some(BudgetMode::Warn));
    assert_eq!(BudgetMode::Fail.step_verdict(STEP_CAP_US), Some(BudgetMode::Fail));
}

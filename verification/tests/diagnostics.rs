use klotho::anchor::AnchorId;
use klotho::diag::{Counterexample, DiagnosticCode, FailureClass};
use klotho::envelope::{
    blame_anchor, diagnose_agency, diagnose_budget, diagnose_budget_miss, diagnose_cap, diagnose_cfg,
    diagnose_contradiction, diagnose_hash_drift, diagnose_journey, diagnose_named, diagnose_package,
    diagnose_provenance, diagnose_unreachable_journey, sorted_texts, text_less,
};
use klotho::hash::digest_of;
use klotho::ir_error::IrError;

#[test]
fn digest_is_blake3() {
    assert_eq!(
        digest_of(b"").to_hex(),
        "af1349b9f5f9a1a6a0404dea36dcc9499bcb25c9adc112b7cc9a93cae41f3262"
    );
    assert_ne!(digest_of(b"abc"), digest_of(b"abd"));
}

#[test]
fn derive_is_stable_and_not_zero() {
    let a = AnchorId::derive(b"hearth", b"module:main");
    let b = AnchorId::derive(b"hearth", b"module:main");
    assert_eq!(a, b);
    assert_ne!(a, AnchorId::zero());
    assert_ne!(a, AnchorId::derive(b"hearth", b"module:other"));
}

#[test]
fn child_depends_on_parent_not_on_sibling_order() {
    let parent = AnchorId::derive(b"proj", b"module:a");
    let locus = parent.child(b"locus:oak_door");
    let again = parent.child(b"locus:oak_door");
    assert_eq!(locus, again);
    assert_ne!(locus, parent.child(b"locus:barrel"));
    assert_ne!(locus, parent);
    assert_eq!(locus, AnchorId::derive(parent.as_bytes(), b"locus:oak_door"));
}

#[test]
fn blame_anchor_is_stable_and_not_zero() {
    let a = blame_anchor("law", "alive");
    assert_eq!(a, blame_anchor("law", "alive"));
    assert_ne!(a, AnchorId::zero());
    assert_ne!(a, blame_anchor("law", "dead"));
    assert_eq!(a, AnchorId::derive(b"klotho-diag-v1", b"law:alive"));
}

#[test]
fn display_is_the_concise_native_line() {
    let err = IrError::DuplicateChannel;
    let diag = err.to_diagnostic();
    assert_eq!(diag.to_text(), err.to_text());
    assert_eq!(diag.to_text(), "DuplicateChannel");
    assert_eq!(diag.code.0, DiagnosticCode::AGENCY);
    assert!(diag.points_to_anchor());
    assert!(diag.witness.is_some());
    assert!(!diag.legal_repairs.is_empty());
}

#[test]
fn hash_drift_keeps_ids_out_of_instructions() {
    let d = IrError::HashDrift { id: "main".into(), expected: "aa".into(), actual: "bb".into() }.to_diagnostic();
    assert_eq!(d.code.0, DiagnosticCode::HASH_DRIFT);
    match d.witness {
        Some(Counterexample::Provenance { span, .. }) => {
            assert!(span.starts_with("data:"));
        }
        other => panic!("{other:?}"),
    }
}

#[test]
fn journey_points_at_anchor_and_blocked_affordance() {
    let d = diagnose_unreachable_journey("open-door", "has-brass-key", "Openable");
    assert_eq!(d.code.0, DiagnosticCode::JOURNEY);
    assert_eq!(d.message, "Journey(has-brass-key->Openable)");
    assert!(d.points_to_anchor());
    assert!(!d.legal_repairs.is_empty());
    assert!(d.related.iter().any(|a| a != &AnchorId::zero()));
}

#[test]
fn budget_names_dominant_loci() {
    let d = diagnose_budget_miss("aaa_adventure", &["hearth-fire", "crowd"], 9_000, 8_000);
    assert_eq!(d.code.0, DiagnosticCode::BUDGET);
    assert!(d.points_to_anchor());
    assert_eq!(d.message, "Budget(9000>8000)");
    match d.witness {
        Some(Counterexample::Budget { dominant, used, cap, estimated_savings }) => {
            assert_eq!(dominant, ["hearth-fire", "crowd"]);
            assert_eq!(used, 9_000);
            assert_eq!(cap, 8_000);
            assert_eq!(estimated_savings, 1_000);
        }
        other => panic!("{other:?}"),
    }
    assert_eq!(d.related, vec![blame_anchor("locus", "hearth-fire"), blame_anchor("locus", "crowd")]);
}

#[test]
fn budget_within_cap_saves_nothing() {
    let d = diagnose_budget("x", &[], 10, 20, "Budget".to_string());
    match d.witness {
        Some(Counterexample::Budget { estimated_savings, .. }) => assert_eq!(estimated_savings, 0),
        other => panic!("{other:?}"),
    }
    assert!(d.related.is_empty());
}

#[test]
fn contradiction_sorts_and_dedups_laws() {
    let d = diagnose_contradiction(&["dead", "alive", "dead", "ash"], "Contradiction".to_string());
    assert_eq!(d.code.0, DiagnosticCode::CONTRADICTION);
    assert_eq!(d.class, FailureClass::Contradiction);
    match &d.witness {
        Some(Counterexample::Contradiction { laws }) => assert_eq!(laws, &["alive", "ash", "dead"]),
        other => panic!("{other:?}"),
    }
    assert_eq!(d.primary, blame_anchor("law", "alive"));
    assert_eq!(d.related, vec![blame_anchor("law", "ash"), blame_anchor("law", "dead")]);
    let empty = diagnose_contradiction(&[], "none".to_string());
    assert!(!empty.points_to_anchor());
    assert!(empty.related.is_empty());
}

#[test]
fn text_order_is_str_order() {
    let words = ["b", "a", "ab", "", "é", "Z", "ab", "a"];
    let sorted = sorted_texts(&words);
    let mut expect: Vec<String> = words.iter().map(|s| s.to_string()).collect();
    expect.sort();
    expect.dedup();
    assert_eq!(sorted, expect);
    assert!(text_less("a", "ab"));
    assert!(!text_less("ab", "ab"));
    assert!(text_less("Z", "a"));
}

#[test]
fn each_failure_kind_gets_its_envelope() {
    let cfg = diagnose_cfg("gate", 3, 7, "cfg".to_string());
    assert_eq!(cfg.code.0, DiagnosticCode::CFG_TARGET);
    assert_eq!(cfg.related, vec![blame_anchor("rite-pc", "7")]);
    assert_eq!(cfg.witness, Some(Counterexample::Cfg { last_reachable_pc: 3, blocked_pc: 7 }));
    let cap = diagnose_cap("pred", 70, 64, "cap".to_string());
    assert_eq!(cap.primary, blame_anchor("cap", "pred"));
    assert_eq!(cap.cost.as_ref().unwrap().stage, "cook");
    let agency = diagnose_agency("mind", "move", "agency".to_string());
    assert_eq!(agency.class, FailureClass::Agency);
    let prov = diagnose_provenance("Unknown", &["x\"y"], "prov".to_string());
    match prov.witness {
        Some(Counterexample::Provenance { span, dependents }) => {
            assert_eq!(span, "data:\"Unknown\"");
            assert_eq!(dependents, vec!["data:\"x\\\"y\"".to_string()]);
        }
        other => panic!("{other:?}"),
    }
    let pkg = diagnose_package("src/main.ron", "authoring", "pkg".to_string());
    assert_eq!(pkg.class, FailureClass::Package);
    let j = diagnose_journey("j", "s", "a", "m".to_string());
    assert_eq!(j.related, vec![blame_anchor("affordance", "a")]);
    let drift = diagnose_hash_drift("main", "aa", "bb", "drift".to_string());
    assert_eq!(drift.class, FailureClass::Reproducibility);
    let named = diagnose_named("IR.X", FailureClass::Schema, "ir", "", "n".to_string());
    assert!(!named.points_to_anchor());
    let named = diagnose_named("IR.X", FailureClass::Schema, "ir", "tok", "n".to_string());
    assert_eq!(named.primary, blame_anchor("ir", "tok"));
}

#[test]
fn ir_errors_route_to_their_envelopes() {
    let cap = IrError::InvalidRiteCap.to_diagnostic();
    assert_eq!(cap.code.0, DiagnosticCode::CAP);
    assert_eq!(cap.witness, Some(Counterexample::Cap { used: 0, limit: 1 }));
    let parse = IrError::Parse("bad".into()).to_diagnostic();
    assert_eq!(parse.code.0, "IR.Parse");
    assert!(!parse.points_to_anchor());
    let cycle = IrError::ImportCycle(vec![]).to_diagnostic();
    assert_eq!(cycle.primary, blame_anchor("ir", "cycle"));
    let mind = IrError::MindProgramCap { locus: "guard".into(), resource: "ops".into(), actual: 9, cap: 8 }.to_diagnostic();
    assert_eq!(mind.witness, Some(Counterexample::Cap { used: 9, limit: 8 }));
    assert_eq!(mind.primary, blame_anchor("cap", "guard"));
}

use klotho::anchor::{parse_hex16, AnchorId, SourceSpan, SpanKind};
use klotho::diag::{as_data, class_for_detail, diagnostic_catalog, Diagnostic, DiagnosticCode, FailureClass, Severity};
use klotho::failure::{cap_message, check_ship_allowlist, CompileError};
use klotho::hash::digest_of;
use klotho::plan::{pass_verdict, EquivalenceReport};
use klotho::plan_read::decode_whole_title_plan;
use klotho::header::{magic, validate_skinned_mesh, MAX_RITE_STEPS, MAX_TRIS};
use klotho::names::Name;
use klotho::catalog::LicenseCoverage;
use klotho::plan::{OptimizationMap, OptimizedSourceMap, SourceMapEntry};
use klotho::plan::{
    check_scale, encode_whole_title_plan, OptimizationPass, PackedRow, PlaceBundlePlan, ScaleLimits, ScaleReport,
    SkuBundlePlan, WholeTitlePlan,
};
use klotho::space::{AabbMm, IVec3};
use klotho::units::Sigil;

#[test]
fn max_tris_is_hld() {
    assert_eq!(MAX_TRIS, 200_000);
    assert_eq!(MAX_RITE_STEPS, 64);
    assert_eq!(magic(), *b"KLTH");
}

#[test]
fn skinned_bad_magic_is_header_error() {
    assert!(matches!(validate_skinned_mesh(b"XXXX", 6), Err(CompileError::Header(_))));
}

#[test]
fn ship_allowlist_accepts_runtime_paths() {
    check_ship_allowlist("engine/crates/klotho-runtime/src/lib.rs").unwrap();
    check_ship_allowlist("data/kitbash/hearth.ron").unwrap();
}

#[test]
fn ship_allowlist_rejects_studio_and_weight_paths() {
    check_ship_allowlist("studio/crates/klotho-editor/src/lib.rs").expect_err("studio tree");
    check_ship_allowlist("data/weights/critic.gguf").expect_err("weights");
}

#[test]
fn as_data_escapes_quotes_and_control() {
    assert_eq!(as_data("ok"), "data:\"ok\"");
    assert_eq!(as_data("a\"b\\c"), "data:\"a\\\"b\\\\c\"");
    assert!(as_data("line\nfeed").contains("\\n"));
    assert!(!as_data("secret").contains("instruction"));
}

#[test]
fn as_data_replaces_other_controls() {
    assert_eq!(as_data("a\rb\u{7}c\u{85}d"), "data:\"a\\rb?c?d\"");
    assert_eq!(as_data(""), "data:\"\"");
    assert_eq!(as_data("é"), "data:\"é\"");
}

#[test]
fn catalog_contains_every_seeded_code() {
    let codes: Vec<_> = diagnostic_catalog().iter().map(|e| e.code).collect();
    for needed in [
        DiagnosticCode::CONTRADICTION,
        DiagnosticCode::CFG_TARGET,
        DiagnosticCode::CAP,
        DiagnosticCode::AGENCY,
        DiagnosticCode::PROVENANCE,
        DiagnosticCode::PACKAGE,
        DiagnosticCode::JOURNEY,
        DiagnosticCode::BUDGET,
        DiagnosticCode::HASH_DRIFT,
    ] {
        assert!(codes.contains(&needed), "missing {needed}");
    }
}

#[test]
fn catalog_classes_follow_the_detail_table() {
    let cat = diagnostic_catalog();
    assert_eq!(cat.len(), 88);
    let find = |code: &str| cat.iter().find(|e| e.code == code).unwrap().clone();
    assert_eq!(find("IR.DuplicateChannel").class, FailureClass::Agency);
    assert_eq!(find("COMPILE.Header").class, FailureClass::Cap);
    assert_eq!(find("CANON.Cycle").class, FailureClass::Cfg);
    assert_eq!(find("PROVE.CasFull").class, FailureClass::Provenance);
    assert_eq!(find("DIALOGUE.Release").class, FailureClass::Provenance);
    assert_eq!(find("EVAL.Replay").class, FailureClass::Journey);
    assert_eq!(find("IR.Parse").class, FailureClass::Schema);
    assert!(find("DEBUG.Budget").retryable);
    assert_eq!(find(DiagnosticCode::JOURNEY).legal_repairs, vec!["repair owned semantic operation from minimized witness"]);
    assert_eq!(class_for_detail("COMPILE.Warp"), FailureClass::Package);
    assert_eq!(class_for_detail("nonsense"), FailureClass::Schema);
    assert_eq!(FailureClass::Reproducibility.as_str(), "reproducibility");
}

#[test]
fn anchor_ratio_counts_real_anchors() {
    let d = |primary: AnchorId| Diagnostic {
        code: DiagnosticCode(DiagnosticCode::CAP.to_string()),
        class: FailureClass::Cap,
        severity: Severity::Error,
        message: "Cap".to_string(),
        primary,
        related: Vec::new(),
        witness: None,
        legal_repairs: Vec::new(),
        cost: None,
    };
    let diags = vec![d(AnchorId::zero()), d(AnchorId::from_bytes([1; 16])), d(AnchorId::from_bytes([0, 0, 0, 9, 0, 0, 0, 0, 0, 0, 0, 0, 0, 0, 0, 0]))];
    assert!(!diags[0].points_to_anchor());
    assert!(diags[1].points_to_anchor());
    assert_eq!(Diagnostic::anchor_ratio(&diags), (2, 3));
    assert_eq!(Diagnostic::anchor_ratio(&[]), (0, 0));
}

#[test]
fn bad_hex_is_rejected() {
    assert!(parse_hex16("zz").is_err());
    assert!(parse_hex16("0123").is_err());
    let a = AnchorId::from_bytes([0xab; 16]);
    assert_eq!(parse_hex16(&a.to_hex()).unwrap(), [0xab; 16]);
    assert_eq!(parse_hex16("000102030405060708090A0B0C0D0E0F").unwrap(), [0, 1, 2, 3, 4, 5, 6, 7, 8, 9, 10, 11, 12, 13, 14, 15]);
    assert_eq!(
        parse_hex16("0g0102030405060708090a0b0c0d0e0f"),
        Err("anchor contains a non-hex character")
    );
    assert_eq!(AnchorId::from_bytes([0x0f; 16]).to_hex().len(), 32);
    let span = SourceSpan { module: a, kind: SpanKind::CanonDiff, index: 2, start: 10, end: 20 };
    assert_eq!(span.clone(), span);
}

#[test]
fn pass_names_are_stable() {
    assert_eq!(OptimizationPass::FoldPredicates.name(), "fold-predicates");
    assert_eq!(OptimizationPass::EliminateUnreachableRiteNodes.name(), "eliminate-unreachable-rite-nodes");
    assert_eq!(OptimizationPass::StripAuthoring.name(), "strip-authoring");
    assert!(OptimizationPass::FoldPredicates < OptimizationPass::StripAuthoring);
}

#[test]
fn scale_limits_fail_closed() {
    let report = ScaleReport {
        places: 3,
        references: 9,
        unique_blobs: 4,
        unique_bytes: 400,
        package_bytes: 500,
        instancing_ratio_milli: 2_250,
    };
    let limits = ScaleLimits { places: 3, unique_blobs: 4, unique_bytes: 400, package_bytes: 500 };
    check_scale(&report, &limits).unwrap();
    let tight = ScaleLimits { package_bytes: 499, ..limits };
    assert_eq!(
        check_scale(&report, &tight),
        Err(CompileError::Optimization("content-scale plan exceeds product limits".to_string()))
    );
}

#[test]
fn plan_bytes_follow_the_layout() {
    let plan = WholeTitlePlan {
        tables: vec![PackedRow { table: "law", stable_id: 1, storage_index: 2 }],
        places: vec![PlaceBundlePlan {
            place: Sigil::from_raw(0x0102),
            aabb: AabbMm::new(IVec3 { x: -1, y: 0, z: 2 }, IVec3 { x: 3, y: 4, z: 5 }),
            assets: vec![klotho::hash::BlobId::from_bytes([7; 32])],
            access_group: 9,
        }],
        skus: vec![SkuBundlePlan { sku: Name::from("low"), permutations: vec![0, 1] }],
        runtime_files: vec![("runtime/a".to_string(), vec![0xee])],
        stripped_paths: vec!["models/x.gguf".to_string()],
        hash: klotho::hash::Hash::zero(),
    };
    let b = encode_whole_title_plan(&plan).unwrap();
    let mut want: Vec<u8> = b"KOPT\x01".to_vec();
    want.extend_from_slice(&1u32.to_le_bytes());
    want.extend_from_slice(&3u32.to_le_bytes());
    want.extend_from_slice(b"law");
    want.extend_from_slice(&1u16.to_le_bytes());
    want.extend_from_slice(&2u16.to_le_bytes());
    want.extend_from_slice(&1u32.to_le_bytes());
    want.extend_from_slice(&0x0102u128.to_le_bytes());
    for v in [-1i32, 0, 2, 3, 4, 5] {
        want.extend_from_slice(&v.to_le_bytes());
    }
    want.extend_from_slice(&9u16.to_le_bytes());
    want.extend_from_slice(&1u32.to_le_bytes());
    want.extend_from_slice(&[7; 32]);
    want.extend_from_slice(&1u32.to_le_bytes());
    want.extend_from_slice(&3u32.to_le_bytes());
    want.extend_from_slice(b"low");
    want.extend_from_slice(&2u32.to_le_bytes());
    want.extend_from_slice(&[0, 1]);
    want.extend_from_slice(&1u32.to_le_bytes());
    want.extend_from_slice(&9u32.to_le_bytes());
    want.extend_from_slice(b"runtime/a");
    want.extend_from_slice(&1u32.to_le_bytes());
    want.push(0xee);
    assert_eq!(b, want);
    let mut other = plan.clone();
    other.stripped_paths.clear();
    other.hash = klotho::hash::Hash::from_bytes([3; 32]);
    assert_eq!(encode_whole_title_plan(&other).unwrap(), b);
}

#[test]
fn stable_row_resolves_without_runtime_state() {
    let anchor = AnchorId::from_bytes([0x5a; 16]);
    let map = OptimizedSourceMap { entries: vec![SourceMapEntry { table: "law", stable_id: 4, anchor, span: None }] };
    assert_eq!(OptimizationMap::new(&map).resolve("law", 4).unwrap().anchor, anchor);
    assert!(OptimizationMap::new(&map).resolve("rite", 4).is_none());
}

#[test]
fn first_matching_source_row_wins() {
    let a = AnchorId::from_bytes([1; 16]);
    let b = AnchorId::from_bytes([2; 16]);
    let map = OptimizedSourceMap {
        entries: vec![
            SourceMapEntry { table: "law", stable_id: 1, anchor: a, span: None },
            SourceMapEntry { table: "law", stable_id: 4, anchor: a, span: None },
            SourceMapEntry { table: "law", stable_id: 4, anchor: b, span: None },
        ],
    };
    assert_eq!(OptimizationMap::new(&map).resolve("law", 4).unwrap().anchor, a);
    assert!(OptimizationMap::new(&map).resolve("law", 5).is_none());
}

#[test]
fn license_coverage_percent() {
    assert_eq!(LicenseCoverage { artifacts: 0, exportable: 0 }.percent(), 100);
    assert_eq!(LicenseCoverage { artifacts: 3, exportable: 2 }.percent(), 66);
    assert!(!LicenseCoverage { artifacts: 3, exportable: 2 }.is_complete());
    assert!(LicenseCoverage { artifacts: 4, exportable: 4 }.is_complete());
    assert_eq!(LicenseCoverage { artifacts: 4, exportable: 4 }.percent(), 100);
}

fn sample_plan() -> WholeTitlePlan {
    WholeTitlePlan {
        tables: vec![
            PackedRow { table: "law", stable_id: 1, storage_index: 2 },
            PackedRow { table: "predicate", stable_id: 0, storage_index: 0 },
        ],
        places: vec![
            PlaceBundlePlan {
                place: Sigil::from_raw(0x0102),
                aabb: AabbMm::new(IVec3 { x: -1, y: 0, z: 2 }, IVec3 { x: 3, y: 4, z: 5 }),
                assets: vec![klotho::hash::BlobId::from_bytes([7; 32]), klotho::hash::BlobId::from_bytes([8; 32])],
                access_group: 1,
            },
            PlaceBundlePlan {
                place: Sigil::from_raw(0x0101),
                aabb: AabbMm::new(IVec3 { x: 0, y: 0, z: 0 }, IVec3 { x: 1, y: 1, z: 1 }),
                assets: vec![],
                access_group: 2,
            },
        ],
        skus: vec![
            SkuBundlePlan { sku: Name::from("high"), permutations: vec![0, 1, 5] },
            SkuBundlePlan { sku: Name::from("low"), permutations: vec![0] },
        ],
        runtime_files: vec![("places/p".to_string(), vec![1, 2]), ("runtime/a".to_string(), vec![0xee])],
        stripped_paths: vec![],
        hash: klotho::hash::Hash::zero(),
    }
}

#[test]
fn decoded_plan_round_trips_and_is_hashed() {
    let plan = sample_plan();
    let b = encode_whole_title_plan(&plan).unwrap();
    let back = decode_whole_title_plan(&b).unwrap();
    let mut want = plan.clone();
    want.hash = digest_of(&b);
    assert_eq!(back, want);
    assert_eq!(encode_whole_title_plan(&back).unwrap(), b);
}

fn opt_err(b: &[u8]) -> String {
    match decode_whole_title_plan(b) {
        Err(CompileError::Optimization(m)) => m,
        other => panic!("unexpected {other:?}"),
    }
}

#[test]
fn decoded_plan_refusals_name_the_fault() {
    let b = encode_whole_title_plan(&sample_plan()).unwrap();
    assert_eq!(opt_err(b"KLTH\x01"), "plan magic/version");
    assert_eq!(opt_err(b"KOP"), "truncated plan");
    assert_eq!(opt_err(b"KOPT\x02"), "plan magic/version");
    for end in 5..b.len() {
        assert!(decode_whole_title_plan(&b[..end]).is_err());
    }
    let mut t = b.clone();
    t.push(0);
    assert_eq!(opt_err(&t), "trailing plan bytes");
    let mut p = sample_plan();
    p.places.swap(0, 1);
    assert_eq!(opt_err(&encode_whole_title_plan(&p).unwrap()), "unsorted Places");
    let mut p = sample_plan();
    p.skus.swap(0, 1);
    assert_eq!(opt_err(&encode_whole_title_plan(&p).unwrap()), "unsorted SKUs");
    let mut p = sample_plan();
    p.skus[0].permutations = vec![1, 1];
    assert_eq!(opt_err(&encode_whole_title_plan(&p).unwrap()), "unsorted permutations");
    let mut p = sample_plan();
    p.places[0].assets.reverse();
    assert_eq!(opt_err(&encode_whole_title_plan(&p).unwrap()), "unsorted Place assets");
    let mut p = sample_plan();
    p.tables[0].table = "beat";
    assert_eq!(opt_err(&encode_whole_title_plan(&p).unwrap()), "unknown table");
    let mut p = sample_plan();
    p.runtime_files.push(("runtime/a".to_string(), vec![]));
    assert_eq!(opt_err(&encode_whole_title_plan(&p).unwrap()), "duplicate runtime path");
    let mut p = sample_plan();
    p.runtime_files.push(("models/w.gguf".to_string(), vec![]));
    assert_eq!(opt_err(&encode_whole_title_plan(&p).unwrap()), "unsafe runtime path models/w.gguf");
    let mut p = sample_plan();
    p.runtime_files.push(("docs/readme".to_string(), vec![]));
    assert_eq!(opt_err(&encode_whole_title_plan(&p).unwrap()), "unsafe runtime path docs/readme");
}

#[test]
fn decoded_runtime_files_come_out_in_path_order() {
    let mut p = sample_plan();
    p.runtime_files.reverse();
    let b = encode_whole_title_plan(&p).unwrap();
    let back = decode_whole_title_plan(&b).unwrap();
    assert_eq!(back.runtime_files, sample_plan().runtime_files);
}

#[test]
fn cap_message_prints_both_numbers() {
    assert_eq!(cap_message("tris", 200_001, 200_000), "tris 200001 > 200000");
    assert_eq!(cap_message("bones", 0, 7), "bones 0 > 7");
}

#[test]
fn pass_verdict_keeps_equivalent_candidates_and_falls_back_otherwise() {
    let ok = pass_verdict(OptimizationPass::FoldPredicates, 10, 7, Ok(EquivalenceReport { cases: vec![] })).unwrap();
    assert!(ok.1);
    assert_eq!((ok.0.before, ok.0.after, ok.0.applied, ok.0.fallback_case.clone()), (10, 7, true, None));
    let back = pass_verdict(
        OptimizationPass::EliminateUnreachableRiteNodes,
        10,
        7,
        Err(CompileError::Equivalence("door".to_string())),
    )
    .unwrap();
    assert!(!back.1);
    assert_eq!((back.0.after, back.0.applied), (10, false));
    assert_eq!(back.0.fallback_case, Some(Name::from("door")));
    assert_eq!(
        pass_verdict(OptimizationPass::FoldPredicates, 1, 1, Err(CompileError::Canon("x".to_string()))),
        Err(CompileError::Canon("x".to_string()))
    );
}

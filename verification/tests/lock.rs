use klotho::failure::CompileError;
use klotho::hash::digest_of;
use klotho::lock::{PresentToolPin, PresentationLock};

fn pin(id: &str) -> PresentToolPin {
    PresentToolPin { id: id.to_string(), version: "1.0.0".to_string(), hash: klotho::hash::Hash([7; 32]) }
}

fn complete() -> PresentationLock {
    let interchange = ["gltf", "materialx", "ocio", "usd"]
        .iter()
        .map(|k| (k.to_string(), "2.0".to_string()))
        .collect();
    let tools = ["probe_bake", "scalable_geometry", "shader", "texture"].iter().map(|k| (k.to_string(), pin(k))).collect();
    PresentationLock { interchange, ocio_config: klotho::hash::Hash([1; 32]), tools }
}

fn header(r: Result<klotho::hash::Hash, CompileError>) -> String {
    match r {
        Err(CompileError::Header(m)) => m,
        other => panic!("{other:?}"),
    }
}

#[test]
fn complete_lock_hashes_its_canonical_text() {
    let lock = complete();
    let h = lock.validate_and_hash("(lock)").unwrap();
    assert_eq!(h, digest_of(b"(lock)"));
}

#[test]
fn incomplete_lock_is_refused_first() {
    let mut lock = complete();
    lock.ocio_config = klotho::hash::Hash([0; 32]);
    assert_eq!(header(lock.validate_and_hash("")), "incomplete presentation lock");
    let mut lock = complete();
    lock.tools.clear();
    assert_eq!(header(lock.validate_and_hash("")), "incomplete presentation lock");
}

#[test]
fn blank_or_unhashed_pin_is_invalid() {
    let mut lock = complete();
    lock.tools[1].1.version = " \t".to_string();
    assert_eq!(header(lock.validate_and_hash("")), "invalid presentation tool pin");
    let mut lock = complete();
    lock.tools[0].1.hash = klotho::hash::Hash([0; 32]);
    assert_eq!(header(lock.validate_and_hash("")), "invalid presentation tool pin");
}

#[test]
fn missing_pin_is_named() {
    let mut lock = complete();
    lock.interchange.retain(|(k, _)| k != "usd");
    assert_eq!(header(lock.validate_and_hash("")), "missing pin usd");
    let mut lock = complete();
    lock.tools.retain(|(k, _)| k != "texture");
    assert!(matches!(lock.validate_and_hash("x"), Err(CompileError::Header(m)) if m == "missing pin texture"));
}

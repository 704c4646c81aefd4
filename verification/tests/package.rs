use klotho::a11y::A11yProfile;
use klotho::failure::CompileError;
use klotho::package::{
    desktop_skus, reject_placeholders, validate_content, CreditEntry, CreditsRoll, HudSpec, LocaleTable, ShipContent,
};

const KEYS: [&str; 8] = [
    "credits.body",
    "credits.title",
    "hud.prompt_attack",
    "hud.prompt_use",
    "hud.stamina",
    "menu.accessibility",
    "play.complete",
    "save.checkpoint",
];

fn locale(id: &str) -> LocaleTable {
    LocaleTable {
        id: id.to_string(),
        strings: KEYS.iter().map(|k| (k.to_string(), format!("text-{k}"))).collect(),
    }
}

fn content() -> ShipContent {
    ShipContent {
        locales: vec![locale("en"), locale("ja"), locale("es")],
        credits: CreditsRoll {
            title: "Mini-Tapestry".to_string(),
            entries: vec![CreditEntry { name: "Klotho".to_string(), role: "engine".to_string() }],
        },
        accessibility: A11yProfile::first_title(),
        hud: HudSpec {
            slots: vec!["status".to_string(), "prompt".to_string(), "notice".to_string()],
            palette: "production".to_string(),
        },
        play_recording: "[]".to_string(),
        notice: "Kitbash assets under CC-BY.".to_string(),
    }
}

fn catalog(m: &str) -> Result<(), CompileError> {
    Err(CompileError::Catalog(m.to_string()))
}

#[test]
fn complete_content_passes() {
    validate_content(&content()).unwrap();
    assert_eq!(desktop_skus().len(), 3);
    assert_eq!(desktop_skus()[1].graphics_api, "Vulkan");
}

#[test]
fn locale_set_must_be_exact() {
    let mut c = content();
    c.locales.pop();
    assert_eq!(validate_content(&c), catalog("ship content must include en, ja, and es"));
    let mut c = content();
    c.locales.push(locale("fr"));
    assert_eq!(validate_content(&c), catalog("ship content must include en, ja, and es"));
    let mut c = content();
    c.locales.push(locale("en"));
    validate_content(&c).unwrap();
}

#[test]
fn locale_keys_and_strings() {
    let mut c = content();
    c.locales[1].strings.pop();
    assert_eq!(validate_content(&c), catalog("locale ja is missing required keys"));
    let mut c = content();
    c.locales[2].strings[3].1 = " \t ".to_string();
    assert_eq!(validate_content(&c), catalog("locale es has empty hud.prompt_use"));
    let mut c = content();
    c.locales[0].strings[0].1 = "Art by TBD".to_string();
    assert_eq!(validate_content(&c), catalog("placeholder `tbd` in locales/en.ron"));
}

#[test]
fn credits_accessibility_and_hud() {
    let mut c = content();
    c.credits.entries.clear();
    assert_eq!(validate_content(&c), catalog("credits roll is empty"));
    let mut c = content();
    c.accessibility.text_scale_milli = 100;
    assert_eq!(validate_content(&c), catalog("accessibility settings are incomplete"));
    let mut c = content();
    c.hud.slots.remove(1);
    assert_eq!(validate_content(&c), catalog("HUD is missing a production slot"));
    let mut c = content();
    c.hud.palette = "debug".to_string();
    assert_eq!(validate_content(&c), catalog("HUD palette must be production"));
    let mut c = content();
    c.notice = "  ".to_string();
    assert_eq!(validate_content(&c), catalog("play recording or NOTICE missing"));
    let mut c = content();
    c.notice = "Lorem Ipsum dolor".to_string();
    assert_eq!(validate_content(&c), catalog("placeholder `lorem ipsum` in NOTICE"));
    let mut c = content();
    c.credits.title = "FIXME title".to_string();
    assert_eq!(validate_content(&c), catalog("placeholder `fixme` in credits"));
}

#[test]
fn placeholder_search_order() {
    assert_eq!(reject_placeholders("x", "xxxx and TODO"), catalog("placeholder `todo` in x"));
    reject_placeholders("x", "to do, t b d").unwrap();
}

#[test]
fn install_record_hashes_every_file_in_order() {
    let pkg = klotho::package::DesktopPackage {
        sku: "win-d3d12-high".to_string(),
        files: vec![("NOTICE".to_string(), b"n".to_vec()), ("game.warp".to_string(), b"w".to_vec())],
    };
    let rec = klotho::package::install_record(&pkg).unwrap();
    assert_eq!(rec.sku, "win-d3d12-high");
    assert_eq!(rec.files[0], ("NOTICE".to_string(), klotho::hash::digest_of(b"n").to_hex()));
    assert_eq!(rec.files[1].1, klotho::hash::digest_of(b"w").to_hex());
}

#[test]
fn install_record_refuses_authoring_paths() {
    let pkg = klotho::package::DesktopPackage {
        sku: "x".to_string(),
        files: vec![("NOTICE".to_string(), vec![]), ("studio\\take.ron".to_string(), vec![])],
    };
    assert!(matches!(
        klotho::package::install_record(&pkg),
        Err(klotho::failure::CompileError::PackageAllowlist(p)) if p == "studio/take.ron"
    ));
}

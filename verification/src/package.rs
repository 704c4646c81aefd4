//! Desktop package content: SKUs, keyed locales, credits, HUD, and the
//! content gate that every shipped payload passes before packing.
use vstd::prelude::*;

use crate::a11y::A11yProfile;
use crate::budget::{trim_chars, trimmed};
use crate::diag::str_eq;
use crate::failure::{chars_of, concat, contains_exec, contains_seq, text, CompileError};

verus! {

/// Desktop SKU identity copied into the package manifest.
#[derive(Clone, PartialEq, Eq, Debug)]
pub struct DesktopSku {
    /// Stable SKU id (`win-d3d12-high`).
    pub id: &'static str,
    /// Family name (`Windows`, `Linux`, `macOS`).
    pub os: &'static str,
    /// Presentation API.
    pub graphics_api: &'static str,
    /// Locked resolution.
    pub resolution: &'static str,
    /// Quality tier.
    pub quality: &'static str,
    /// Refresh.
    pub refresh_hz: u16,
}

/// Keyed locale table. No executable text. Keys are ascending and unique.
#[derive(Clone, PartialEq, Eq, Debug)]
pub struct LocaleTable {
    /// `en` / `ja` / `es`.
    pub id: String,
    /// Stable keys to shipping strings, ascending by key.
    pub strings: Vec<(String, String)>,
}

/// One credits row.
#[derive(Clone, PartialEq, Eq, Debug)]
pub struct CreditEntry {
    /// Person or house.
    pub name: String,
    /// Role.
    pub role: String,
}

/// End-roll credits.
#[derive(Clone, PartialEq, Eq, Debug)]
pub struct CreditsRoll {
    /// Title card.
    pub title: String,
    /// Named contributors.
    pub entries: Vec<CreditEntry>,
}

/// Production HUD slots. Presentation only.
#[derive(Clone, PartialEq, Eq, Debug)]
pub struct HudSpec {
    /// Required slots (`status`, `prompt`, `notice`).
    pub slots: Vec<String>,
    /// Palette name (`production`).
    pub palette: String,
}

/// Authoring-side payload packed next to the warp.
#[derive(Clone, PartialEq, Eq, Debug)]
pub struct ShipContent {
    /// Three shipping locales.
    pub locales: Vec<LocaleTable>,
    /// Credits roll.
    pub credits: CreditsRoll,
    /// Accessibility settings.
    pub accessibility: A11yProfile,
    /// HUD descriptor.
    pub hud: HudSpec,
    /// Recorded human critical-path play bytes (journey text).
    pub play_recording: String,
    /// Third-party / kitbash notice.
    pub notice: String,
}

/// Content-addressed desktop package. Paths are relative, allowlisted,
/// ascending and unique.
#[derive(Clone, PartialEq, Eq, Debug)]
pub struct DesktopPackage {
    /// SKU packed.
    pub sku: String,
    /// Relative path and file bytes, ascending by path.
    pub files: Vec<(String, Vec<u8>)>,
}

/// Record written by install. Uninstall only removes these paths.
#[derive(Clone, PartialEq, Eq, Debug)]
pub struct InstallRecord {
    /// SKU id.
    pub sku: String,
    /// Relative path and hex digest, ascending by path.
    pub files: Vec<(String, String)>,
}

/// The three first-title desktop SKUs.
pub fn desktop_skus() -> (r: Vec<DesktopSku>)
    ensures
        r@.len() == 3,
        r@[0].id@ == "win-d3d12-high"@,
        r@[1].id@ == "linux-vulkan-high"@,
        r@[2].id@ == "mac-metal-high"@,
        forall|i: int| 0 <= i < 3 ==> (#[trigger] r@[i]).refresh_hz == 60 && r@[i].resolution@ == "1920x1080"@
            && r@[i].quality@ == "high"@,
{
    vec![
        DesktopSku {
            id: "win-d3d12-high",
            os: "Windows",
            graphics_api: "D3D12",
            resolution: "1920x1080",
            quality: "high",
            refresh_hz: 60,
        },
        DesktopSku {
            id: "linux-vulkan-high",
            os: "Linux",
            graphics_api: "Vulkan",
            resolution: "1920x1080",
            quality: "high",
            refresh_hz: 60,
        },
        DesktopSku {
            id: "mac-metal-high",
            os: "macOS",
            graphics_api: "Metal",
            resolution: "1920x1080",
            quality: "high",
            refresh_hz: 60,
        },
    ]
}

/// Locale identifiers shipped with the first title.
pub open spec fn required_locales() -> Seq<Seq<char>> {
    seq!["en"@, "ja"@, "es"@]
}

/// Keys every shipping locale table must contain.
pub open spec fn required_keys() -> Seq<Seq<char>> {
    seq![
        "hud.stamina"@,
        "hud.prompt_use"@,
        "hud.prompt_attack"@,
        "menu.accessibility"@,
        "save.checkpoint"@,
        "credits.title"@,
        "credits.body"@,
        "play.complete"@,
    ]
}

/// Placeholder words that never ship, in the order they are searched.
pub open spec fn placeholders() -> Seq<Seq<char>> {
    seq!["todo"@, "tbd"@, "fixme"@, "placeholder"@, "lorem ipsum"@, "xxxx"@]
}

/// ASCII upper-case letters folded to lower case.
pub open spec fn lower_char(c: char) -> char {
    if 'A' <= c && c <= 'Z' {
        ((c as int) + 32) as char
    } else {
        c
    }
}

/// The text with ASCII letters folded to lower case.
pub open spec fn ascii_lowercase(s: Seq<char>) -> Seq<char> {
    s.map_values(|c: char| lower_char(c))
}

/// The first placeholder word at or after `k` that the folded text contains.
pub open spec fn placeholder_from(t: Seq<char>, k: int) -> Option<Seq<char>>
    decreases 6 - k,
{
    if k < 0 || k >= 6 {
        None
    } else if contains_seq(ascii_lowercase(t), placeholders()[k]) {
        Some(placeholders()[k])
    } else {
        placeholder_from(t, k + 1)
    }
}

/// Why `text` at `path` is refused for a placeholder word, if it is.
pub open spec fn placeholder_fault(path: Seq<char>, t: Seq<char>) -> Option<Seq<char>> {
    match placeholder_from(t, 0) {
        Some(n) => Some("placeholder `"@ + n + "` in "@ + path),
        None => None,
    }
}

/// Some locale has this id.
pub open spec fn locale_present(ls: Seq<LocaleTable>, id: Seq<char>) -> bool {
    exists|i: int| 0 <= i < ls.len() && #[trigger] ls[i].id@ == id
}

/// Every locale is a required one and every required one is present.
pub open spec fn locale_ids_ok(ls: Seq<LocaleTable>) -> bool {
    &&& forall|i: int| 0 <= i < ls.len() ==> required_locales().contains(#[trigger] ls[i].id@)
    &&& forall|j: int| 0 <= j < 3 ==> locale_present(ls, #[trigger] required_locales()[j])
}

/// Some entry has this key.
pub open spec fn key_present(s: Seq<(String, String)>, key: Seq<char>) -> bool {
    exists|i: int| 0 <= i < s.len() && #[trigger] s[i].0@ == key
}

/// The table's keys are exactly the required keys.
pub open spec fn keys_ok(s: Seq<(String, String)>) -> bool {
    &&& forall|i: int| 0 <= i < s.len() ==> required_keys().contains(#[trigger] s[i].0@)
    &&& forall|j: int| 0 <= j < 8 ==> key_present(s, #[trigger] required_keys()[j])
}

/// Why one locale string is refused: blank, or a placeholder.
pub open spec fn value_fault(id: Seq<char>, e: (String, String)) -> Option<Seq<char>> {
    if trimmed(e.1@).len() == 0 {
        Some("locale "@ + id + " has empty "@ + e.0@)
    } else {
        placeholder_fault("locales/"@ + id + ".ron"@, e.1@)
    }
}

/// The first refused string among the first `k`.
pub open spec fn values_fault(id: Seq<char>, s: Seq<(String, String)>, k: nat) -> Option<Seq<char>>
    decreases k,
{
    if k == 0 {
        None
    } else {
        match values_fault(id, s, (k - 1) as nat) {
            Some(m) => Some(m),
            None => value_fault(id, s[k - 1]),
        }
    }
}

/// Why a locale table is refused: missing keys, then its first bad string.
pub open spec fn locale_fault(t: LocaleTable) -> Option<Seq<char>> {
    if !keys_ok(t.strings@) {
        Some("locale "@ + t.id@ + " is missing required keys"@)
    } else {
        values_fault(t.id@, t.strings@, t.strings@.len())
    }
}

/// The first refused table among the first `k`.
pub open spec fn locales_fault(ls: Seq<LocaleTable>, k: nat) -> Option<Seq<char>>
    decreases k,
{
    if k == 0 {
        None
    } else {
        match locales_fault(ls, (k - 1) as nat) {
            Some(m) => Some(m),
            None => locale_fault(ls[k - 1]),
        }
    }
}

/// A slot of that name is present.
pub open spec fn has_slot(slots: Seq<String>, name: Seq<char>) -> bool {
    exists|i: int| 0 <= i < slots.len() && #[trigger] slots[i]@ == name
}

/// Why ship content is refused, checked in order: the locale set, each
/// locale's keys and strings, credits, accessibility, HUD slots and palette,
/// play recording and notice, then placeholders in notice and credits title.
pub open spec fn content_fault(c: ShipContent) -> Option<Seq<char>> {
    if !locale_ids_ok(c.locales@) {
        Some("ship content must include en, ja, and es"@)
    } else if locales_fault(c.locales@, c.locales@.len()) is Some {
        locales_fault(c.locales@, c.locales@.len())
    } else if c.credits.entries@.len() == 0 || trimmed(c.credits.title@).len() == 0 {
        Some("credits roll is empty"@)
    } else if !c.accessibility.remap || !c.accessibility.subtitles || !(750 <= c.accessibility.text_scale_milli
        <= 2000) {
        Some("accessibility settings are incomplete"@)
    } else if !has_slot(c.hud.slots@, "status"@) || !has_slot(c.hud.slots@, "prompt"@) || !has_slot(
        c.hud.slots@,
        "notice"@,
    ) {
        Some("HUD is missing a production slot"@)
    } else if c.hud.palette@ != "production"@ {
        Some("HUD palette must be production"@)
    } else if trimmed(c.play_recording@).len() == 0 || trimmed(c.notice@).len() == 0 {
        Some("play recording or NOTICE missing"@)
    } else if placeholder_fault("NOTICE"@, c.notice@) is Some {
        placeholder_fault("NOTICE"@, c.notice@)
    } else {
        placeholder_fault("credits"@, c.credits.title@)
    }
}

/// A catalog error carrying `m`.
pub open spec fn catalog_err(r: Result<(), CompileError>, m: Seq<char>) -> bool {
    r matches Err(CompileError::Catalog(x)) && x@ == m
}

fn catalog(m: String) -> (r: Result<(), CompileError>)
    ensures
        catalog_err(r, m@),
{
    Err(CompileError::Catalog(m))
}

fn lower_all(s: &str) -> (r: Vec<char>)
    ensures
        r@ == ascii_lowercase(s@),
{
    let cs = chars_of(s);
    let mut out: Vec<char> = Vec::new();
    let mut i: usize = 0;
    while i < cs.len()
        invariant
            cs@ == s@,
            0 <= i <= cs@.len(),
            out@ == ascii_lowercase(s@).take(i as int),
        decreases cs@.len() - i,
    {
        let c = cs[i];
        let l = if 'A' <= c && c <= 'Z' {
            ((c as u8) + 32) as char
        } else {
            c
        };
        assert(l == lower_char(c));
        out.push(l);
        i = i + 1;
        assert(out@ =~= ascii_lowercase(s@).take(i as int));
    }
    assert(ascii_lowercase(s@).take(cs@.len() as int) =~= ascii_lowercase(s@));
    out
}

fn placeholder_word(k: usize) -> (r: &'static str)
    requires
        k < 6,
    ensures
        r@ == placeholders()[k as int],
{
    if k == 0 {
        "todo"
    } else if k == 1 {
        "tbd"
    } else if k == 2 {
        "fixme"
    } else if k == 3 {
        "placeholder"
    } else if k == 4 {
        "lorem ipsum"
    } else {
        "xxxx"
    }
}

/// Refuse a text that contains a placeholder word (any ASCII case).
pub fn reject_placeholders(path: &str, text: &str) -> (r: Result<(), CompileError>)
    ensures
        match placeholder_fault(path@, text@) {
            None => r is Ok,
            Some(m) => catalog_err(r, m),
        },
{
    let lower = lower_all(text);
    let mut k: usize = 0;
    while k < 6
        invariant
            0 <= k <= 6,
            lower@ == ascii_lowercase(text@),
            placeholder_from(text@, 0) == placeholder_from(text@, k as int),
        decreases 6 - k,
    {
        let needle = placeholder_word(k);
        if contains_exec(&lower, &chars_of(needle)) {
            let a = concat("placeholder `", needle);
            let b = concat(a.as_str(), "` in ");
            return catalog(concat(b.as_str(), path));
        }
        k = k + 1;
    }
    Ok(())
}

fn is_blank(s: &str) -> (r: bool)
    ensures
        r == (trimmed(s@).len() == 0),
{
    trim_chars(&chars_of(s)).len() == 0
}

fn required_locale(k: usize) -> (r: &'static str)
    requires
        k < 3,
    ensures
        r@ == required_locales()[k as int],
{
    if k == 0 {
        "en"
    } else if k == 1 {
        "ja"
    } else {
        "es"
    }
}

fn required_key(k: usize) -> (r: &'static str)
    requires
        k < 8,
    ensures
        r@ == required_keys()[k as int],
{
    if k == 0 {
        "hud.stamina"
    } else if k == 1 {
        "hud.prompt_use"
    } else if k == 2 {
        "hud.prompt_attack"
    } else if k == 3 {
        "menu.accessibility"
    } else if k == 4 {
        "save.checkpoint"
    } else if k == 5 {
        "credits.title"
    } else if k == 6 {
        "credits.body"
    } else {
        "play.complete"
    }
}

/// `s` is one of the first `n` required locales.
fn in_required_locales(s: &str) -> (r: bool)
    ensures
        r == required_locales().contains(s@),
{
    let mut k: usize = 0;
    while k < 3
        invariant
            0 <= k <= 3,
            forall|j: int| 0 <= j < k ==> required_locales()[j] != s@,
        decreases 3 - k,
    {
        if str_eq(s, required_locale(k)) {
            assert(required_locales()[k as int] == s@);
            return true;
        }
        k = k + 1;
    }
    false
}

fn in_required_keys(s: &str) -> (r: bool)
    ensures
        r == required_keys().contains(s@),
{
    let mut k: usize = 0;
    while k < 8
        invariant
            0 <= k <= 8,
            forall|j: int| 0 <= j < k ==> required_keys()[j] != s@,
        decreases 8 - k,
    {
        if str_eq(s, required_key(k)) {
            assert(required_keys()[k as int] == s@);
            return true;
        }
        k = k + 1;
    }
    false
}

fn ids_ok(ls: &Vec<LocaleTable>) -> (r: bool)
    ensures
        r == locale_ids_ok(ls@),
{
    let mut i: usize = 0;
    while i < ls.len()
        invariant
            0 <= i <= ls@.len(),
            forall|j: int| 0 <= j < i ==> required_locales().contains(#[trigger] ls@[j].id@),
        decreases ls@.len() - i,
    {
        if !in_required_locales(ls[i].id.as_str()) {
            return false;
        }
        i = i + 1;
    }
    let mut k: usize = 0;
    while k < 3
        invariant
            0 <= k <= 3,
            forall|j: int| 0 <= j < ls@.len() ==> required_locales().contains(#[trigger] ls@[j].id@),
            forall|q: int| 0 <= q < k ==> locale_present(ls@, #[trigger] required_locales()[q]),
        decreases 3 - k,
    {
        let want = required_locale(k);
        let mut found = false;
        let mut j: usize = 0;
        while j < ls.len()
            invariant
                0 <= j <= ls@.len(),
                want@ == required_locales()[k as int],
                !found ==> forall|m: int| 0 <= m < j ==> ls@[m].id@ != want@,
                found ==> locale_present(ls@, required_locales()[k as int]),
            decreases ls@.len() - j,
        {
            if str_eq(ls[j].id.as_str(), want) {
                found = true;
            }
            j = j + 1;
        }
        if !found {
            assert(!locale_ids_ok(ls@));
            return false;
        }
        k = k + 1;
    }
    true
}

fn keys_ok_exec(s: &Vec<(String, String)>) -> (r: bool)
    ensures
        r == keys_ok(s@),
{
    let mut i: usize = 0;
    while i < s.len()
        invariant
            0 <= i <= s@.len(),
            forall|j: int| 0 <= j < i ==> required_keys().contains(#[trigger] s@[j].0@),
        decreases s@.len() - i,
    {
        if !in_required_keys(s[i].0.as_str()) {
            return false;
        }
        i = i + 1;
    }
    let mut k: usize = 0;
    while k < 8
        invariant
            0 <= k <= 8,
            forall|j: int| 0 <= j < s@.len() ==> required_keys().contains(#[trigger] s@[j].0@),
            forall|q: int| 0 <= q < k ==> key_present(s@, #[trigger] required_keys()[q]),
        decreases 8 - k,
    {
        let want = required_key(k);
        let mut found = false;
        let mut j: usize = 0;
        while j < s.len()
            invariant
                0 <= j <= s@.len(),
                want@ == required_keys()[k as int],
                !found ==> forall|m: int| 0 <= m < j ==> s@[m].0@ != want@,
                found ==> key_present(s@, required_keys()[k as int]),
            decreases s@.len() - j,
        {
            if str_eq(s[j].0.as_str(), want) {
                found = true;
            }
            j = j + 1;
        }
        if !found {
            assert(!keys_ok(s@));
            return false;
        }
        k = k + 1;
    }
    true
}

proof fn lemma_values_fault_stops(id: Seq<char>, s: Seq<(String, String)>, a: nat, b: nat)
    requires
        a <= b,
        values_fault(id, s, a) is Some,
    ensures
        values_fault(id, s, b) == values_fault(id, s, a),
    decreases b,
{
    if b > a {
        lemma_values_fault_stops(id, s, a, (b - 1) as nat);
    }
}

proof fn lemma_locales_fault_stops(ls: Seq<LocaleTable>, a: nat, b: nat)
    requires
        a <= b,
        locales_fault(ls, a) is Some,
    ensures
        locales_fault(ls, b) == locales_fault(ls, a),
    decreases b,
{
    if b > a {
        lemma_locales_fault_stops(ls, a, (b - 1) as nat);
    }
}

fn check_locale(t: &LocaleTable) -> (r: Result<(), CompileError>)
    ensures
        match locale_fault(*t) {
            None => r is Ok,
            Some(m) => catalog_err(r, m),
        },
{
    if !keys_ok_exec(&t.strings) {
        let a = concat("locale ", t.id.as_str());
        return catalog(concat(a.as_str(), " is missing required keys"));
    }
    let n = t.strings.len();
    let mut i: usize = 0;
    while i < n
        invariant
            n == t.strings@.len(),
            0 <= i <= n,
            keys_ok(t.strings@),
            values_fault(t.id@, t.strings@, i as nat) is None,
        decreases n - i,
    {
        let key = t.strings[i].0.as_str();
        let value = t.strings[i].1.as_str();
        if is_blank(value) {
            proof {
                lemma_values_fault_stops(t.id@, t.strings@, (i + 1) as nat, n as nat);
            }
            let a = concat("locale ", t.id.as_str());
            let b = concat(a.as_str(), " has empty ");
            return catalog(concat(b.as_str(), key));
        }
        let p = concat("locales/", t.id.as_str());
        let path = concat(p.as_str(), ".ron");
        let r = reject_placeholders(path.as_str(), value);
        if r.is_err() {
            proof {
                lemma_values_fault_stops(t.id@, t.strings@, (i + 1) as nat, n as nat);
            }
            return r;
        }
        i = i + 1;
    }
    Ok(())
}

fn has_slot_exec(slots: &Vec<String>, name: &str) -> (r: bool)
    ensures
        r == has_slot(slots@, name@),
{
    let mut i: usize = 0;
    while i < slots.len()
        invariant
            0 <= i <= slots@.len(),
            forall|j: int| 0 <= j < i ==> slots@[j]@ != name@,
        decreases slots@.len() - i,
    {
        if str_eq(slots[i].as_str(), name) {
            return true;
        }
        i = i + 1;
    }
    false
}

/// Refuse ship content that is incomplete or carries placeholder text; the
/// first fault, in the order of [`content_fault`], is reported.
pub fn validate_content(content: &ShipContent) -> (r: Result<(), CompileError>)
    ensures
        match content_fault(*content) {
            None => r is Ok,
            Some(m) => catalog_err(r, m),
        },
{
    if !ids_ok(&content.locales) {
        return catalog(text("ship content must include en, ja, and es"));
    }
    let n = content.locales.len();
    let mut i: usize = 0;
    while i < n
        invariant
            n == content.locales@.len(),
            0 <= i <= n,
            locale_ids_ok(content.locales@),
            locales_fault(content.locales@, i as nat) is None,
        decreases n - i,
    {
        let r = check_locale(&content.locales[i]);
        if r.is_err() {
            proof {
                lemma_locales_fault_stops(content.locales@, (i + 1) as nat, n as nat);
            }
            return r;
        }
        i = i + 1;
    }
    if content.credits.entries.len() == 0 || is_blank(content.credits.title.as_str()) {
        return catalog(text("credits roll is empty"));
    }
    if !content.accessibility.remap || !content.accessibility.subtitles || content.accessibility.validate().is_err() {
        return catalog(text("accessibility settings are incomplete"));
    }
    if !has_slot_exec(&content.hud.slots, "status") || !has_slot_exec(&content.hud.slots, "prompt")
        || !has_slot_exec(&content.hud.slots, "notice") {
        return catalog(text("HUD is missing a production slot"));
    }
    if !str_eq(content.hud.palette.as_str(), "production") {
        return catalog(text("HUD palette must be production"));
    }
    if is_blank(content.play_recording.as_str()) || is_blank(content.notice.as_str()) {
        return catalog(text("play recording or NOTICE missing"));
    }
    reject_placeholders("NOTICE", content.notice.as_str())?;
    reject_placeholders("credits", content.credits.title.as_str())
}

/// The first file of `files` whose path is outside the ship allowlist.
pub open spec fn first_banned(files: Seq<(String, Vec<u8>)>, k: int) -> Option<int>
    decreases files.len() - k,
{
    if k < 0 || k >= files.len() {
        None
    } else if crate::failure::banned_path(crate::failure::normalize_slashes(files[k].0@)) {
        Some(k)
    } else {
        first_banned(files, k + 1)
    }
}

/// The install record of a package: each file's path with the hex digest
/// of its bytes. A path outside the ship allowlist is refused, the first
/// one in path order.
pub fn install_record(package: &DesktopPackage) -> (r: Result<InstallRecord, CompileError>)
    ensures
        match first_banned(package.files@, 0) {
            Some(k) => r matches Err(CompileError::PackageAllowlist(p)) && p@ == crate::failure::normalize_slashes(
                package.files@[k].0@,
            ),
            None => r matches Ok(rec) && rec.sku@ == package.sku@ && rec.files@.len() == package.files@.len()
                && forall|i: int|
                0 <= i < package.files@.len() ==> (#[trigger] rec.files@[i]).0@ == package.files@[i].0@ && rec.files@[i].1@
                    == crate::hash::hex_text(crate::hash::blake3_digest(package.files@[i].1@)),
        },
{
    let mut files: Vec<(String, String)> = Vec::new();
    let mut i: usize = 0;
    while i < package.files.len()
        invariant
            0 <= i <= package.files@.len(),
            first_banned(package.files@, 0) == first_banned(package.files@, i as int),
            files@.len() == i,
            forall|j: int|
                0 <= j < i ==> (#[trigger] files@[j]).0@ == package.files@[j].0@ && files@[j].1@
                    == crate::hash::hex_text(crate::hash::blake3_digest(package.files@[j].1@)),
        decreases package.files@.len() - i,
    {
        let (rel, bytes) = (&package.files[i].0, &package.files[i].1);
        match crate::failure::check_ship_allowlist(rel.as_str()) {
            Ok(()) => {},
            Err(e) => {
                return Err(e);
            },
        }
        let digest = crate::hash::digest_of(bytes.as_slice());
        files.push((crate::failure::text(rel.as_str()), digest.to_hex()));
        i = i + 1;
    }
    Ok(InstallRecord { sku: crate::failure::text(package.sku.as_str()), files })
}

} // verus!

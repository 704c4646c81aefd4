//! Project-wide pinned presentation toolchain: interchange versions, the
//! colour config and every presentation tool, each by exact version and hash.
use vstd::prelude::*;
use vstd::string::StringSliceAdditionalSpecFns;

use crate::budget::is_ws;
use crate::failure::{chars_of, concat, CompileError};
use crate::hash::{blake3_digest, hash_bytes, zero_bytes};

verus! {

/// One pinned presentation tool (shader compiler, baker, encoder, ...).
#[derive(Clone, PartialEq, Eq, Debug)]
pub struct PresentToolPin {
    /// Human-readable tool id.
    pub id: String,
    /// Exact version string.
    pub version: String,
    /// Executable or bundle hash.
    pub hash: crate::hash::Hash,
}

/// Project-wide deterministic presentation lock. Both tables list each key
/// once, in ascending order.
#[derive(Clone, PartialEq, Eq, Debug)]
pub struct PresentationLock {
    /// glTF / USD / MaterialX / OCIO versions.
    pub interchange: Vec<(String, String)>,
    /// OpenColorIO config hash.
    pub ocio_config: crate::hash::Hash,
    /// Shader compiler, probe baker, texture encoder, scalable-geometry pin.
    pub tools: Vec<(String, PresentToolPin)>,
}

/// Nothing but whitespace: what is left after trimming is empty.
pub open spec fn blank(s: Seq<char>) -> bool {
    forall|i: int| 0 <= i < s.len() ==> is_ws(#[trigger] s[i])
}

/// A tool pin with a blank name, id or version, or a zero hash.
pub open spec fn pin_bad(name: Seq<char>, p: PresentToolPin) -> bool {
    blank(name) || blank(p.id@) || blank(p.version@) || p.hash.0@ == zero_bytes()
}

/// Pins every lock must carry, in either table.
pub open spec fn required_pins() -> Seq<Seq<char>> {
    seq![
        "gltf"@,
        "usd"@,
        "materialx"@,
        "ocio"@,
        "shader"@,
        "probe_bake"@,
        "texture"@,
        "scalable_geometry"@,
    ]
}

/// `key` names an interchange entry or a tool.
pub open spec fn pinned(l: PresentationLock, key: Seq<char>) -> bool {
    (exists|i: int| 0 <= i < l.interchange@.len() && (#[trigger] l.interchange@[i]).0@ == key) || (exists|i: int|
        0 <= i < l.tools@.len() && (#[trigger] l.tools@[i]).0@ == key)
}

/// The first required pin at or after `k` that the lock lacks.
pub open spec fn first_missing(l: PresentationLock, k: int) -> Option<int>
    decreases required_pins().len() - k,
{
    if k < 0 || k >= required_pins().len() {
        None
    } else if !pinned(l, required_pins()[k]) {
        Some(k)
    } else {
        first_missing(l, k + 1)
    }
}

/// Why the lock is refused, if it is.
pub open spec fn lock_fault(l: PresentationLock) -> Option<Seq<char>> {
    if l.interchange@.len() == 0 || l.ocio_config.0@ == zero_bytes() || l.tools@.len() == 0 {
        Some("incomplete presentation lock"@)
    } else if exists|i: int| 0 <= i < l.tools@.len() && pin_bad((#[trigger] l.tools@[i]).0@, l.tools@[i].1) {
        Some("invalid presentation tool pin"@)
    } else {
        match first_missing(l, 0) {
            Some(k) => Some("missing pin "@ + required_pins()[k]),
            None => None,
        }
    }
}

fn is_blank(s: &str) -> (r: bool)
    ensures
        r == blank(s@),
{
    let cs = chars_of(s);
    let mut i: usize = 0;
    while i < cs.len()
        invariant
            cs@ == s@,
            0 <= i <= cs@.len(),
            forall|j: int| 0 <= j < i ==> is_ws(#[trigger] s@[j]),
        decreases cs@.len() - i,
    {
        let c = cs[i];
        let ws = ('\u{9}' <= c && c <= '\u{d}') || c == ' ' || c == '\u{85}' || c == '\u{a0}' || c == '\u{1680}' || (
        '\u{2000}' <= c && c <= '\u{200a}') || c == '\u{2028}' || c == '\u{2029}' || c == '\u{202f}' || c
            == '\u{205f}' || c == '\u{3000}';
        if !ws {
            return false;
        }
        i = i + 1;
    }
    true
}

fn is_zero_hash(h: &crate::hash::Hash) -> (r: bool)
    ensures
        r == (h.0@ == zero_bytes()),
{
    let mut i: usize = 0;
    while i < 32
        invariant
            i <= 32,
            forall|j: int| 0 <= j < i ==> h.0@[j] == 0,
        decreases 32 - i,
    {
        if h.0[i] != 0 {
            assert(h.0@[i as int] != zero_bytes()[i as int]);
            return false;
        }
        i = i + 1;
    }
    assert(h.0@ =~= zero_bytes());
    true
}

fn has_pin(l: &PresentationLock, key: &str) -> (r: bool)
    ensures
        r == pinned(*l, key@),
{
    let mut i: usize = 0;
    while i < l.interchange.len()
        invariant
            0 <= i <= l.interchange@.len(),
            forall|j: int| 0 <= j < i ==> (#[trigger] l.interchange@[j]).0@ != key@,
        decreases l.interchange@.len() - i,
    {
        if crate::diag::str_eq(l.interchange[i].0.as_str(), key) {
            return true;
        }
        i = i + 1;
    }
    let mut i: usize = 0;
    while i < l.tools.len()
        invariant
            0 <= i <= l.tools@.len(),
            forall|j: int| 0 <= j < l.interchange@.len() ==> (#[trigger] l.interchange@[j]).0@ != key@,
            forall|j: int| 0 <= j < i ==> (#[trigger] l.tools@[j]).0@ != key@,
        decreases l.tools@.len() - i,
    {
        if crate::diag::str_eq(l.tools[i].0.as_str(), key) {
            return true;
        }
        i = i + 1;
    }
    false
}

fn header(msg: String) -> (r: CompileError)
    ensures
        r == CompileError::Header(msg),
{
    CompileError::Header(msg)
}

impl PresentationLock {
    /// Refuse an incomplete lock, a blank or zero-hash tool pin, or a missing
    /// required pin, in that order.
    fn validate(&self) -> (r: Result<(), CompileError>)
        ensures
            match lock_fault(*self) {
                Some(m) => r matches Err(CompileError::Header(t)) && t@ == m,
                None => r is Ok,
            },
    {
        if self.interchange.len() == 0 || is_zero_hash(&self.ocio_config) || self.tools.len() == 0 {
            return Err(header(crate::failure::text("incomplete presentation lock")));
        }
        let mut i: usize = 0;
        while i < self.tools.len()
            invariant
                0 <= i <= self.tools@.len(),
                !(self.interchange@.len() == 0 || self.ocio_config.0@ == zero_bytes() || self.tools@.len() == 0),
                forall|j: int| 0 <= j < i ==> !pin_bad((#[trigger] self.tools@[j]).0@, self.tools@[j].1),
            decreases self.tools@.len() - i,
        {
            let (name, pin) = (&self.tools[i].0, &self.tools[i].1);
            if is_blank(name.as_str()) || is_blank(pin.id.as_str()) || is_blank(pin.version.as_str()) || is_zero_hash(
                &pin.hash,
            ) {
                assert(pin_bad(self.tools@[i as int].0@, self.tools@[i as int].1));
                return Err(header(crate::failure::text("invalid presentation tool pin")));
            }
            i = i + 1;
        }
        let keys: [&str; 8] = [
            "gltf",
            "usd",
            "materialx",
            "ocio",
            "shader",
            "probe_bake",
            "texture",
            "scalable_geometry",
        ];
        proof {
            reveal_strlit("gltf");
        }
        let mut k: usize = 0;
        while k < 8
            invariant
                0 <= k <= 8,
                !(self.interchange@.len() == 0 || self.ocio_config.0@ == zero_bytes() || self.tools@.len() == 0),
                forall|j: int| 0 <= j < self.tools@.len() ==> !pin_bad((#[trigger] self.tools@[j]).0@, self.tools@[j].1),
                forall|j: int| 0 <= j < 8 ==> (#[trigger] keys@[j])@ == required_pins()[j],
                first_missing(*self, 0) == first_missing(*self, k as int),
            decreases 8 - k,
        {
            if !has_pin(self, keys[k]) {
                assert(first_missing(*self, k as int) == Some(k as int));
                return Err(header(concat("missing pin ", keys[k])));
            }
            k = k + 1;
        }
        Ok(())
    }

    /// Validate, then return the content hash of the lock's canonical text
    /// (`canonical`, its serialised form, made by the caller: a serde derive
    /// cannot stand on a verified type).
    pub fn validate_and_hash(&self, canonical: &str) -> (r: Result<crate::hash::Hash, CompileError>)
        ensures
            match lock_fault(*self) {
                Some(m) => r matches Err(CompileError::Header(t)) && t@ == m,
                None => r matches Ok(h) && h.0@ == blake3_digest(canonical.spec_bytes()),
            },
    {
        match self.validate() {
            Err(e) => Err(e),
            Ok(()) => Ok(hash_bytes(canonical.as_bytes())),
        }
    }
}

} // verus!

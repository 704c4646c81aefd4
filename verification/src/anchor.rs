//! Immutable 128-bit authoring identities and the source spans that point
//! back into modules.
use vstd::prelude::*;
use vstd::string::StringSliceAdditionalSpecFns;

use crate::bytes::{append_bytes, push_u32, u32_bytes};
use crate::hash::{all_hex, blake3_digest, hash_bytes, hex_text, hex_val, hex_value, parsed_byte};

verus! {

/// 128-bit authoring identity. Never derived from a mutable name, list
/// position, packed runtime index, or RNG.
#[derive(Copy, Clone, PartialEq, Eq, Ord, PartialOrd, Hash, Debug, Default)]
pub struct AnchorId(pub [u8; 16]);

/// Sixteen zero bytes.
pub open spec fn zero16() -> Seq<u8> {
    Seq::new(16, |i: int| 0u8)
}

/// Parse of exactly 32 hex digits into 16 bytes.
pub open spec fn spec_parse_hex16(s: Seq<u8>) -> Option<Seq<u8>> {
    if s.len() != 32 || !all_hex(s) {
        None
    } else {
        Some(Seq::new(16, |i: int| parsed_byte(s, i)))
    }
}

/// Domain tag hashed in front of every derived identity.
pub open spec fn anchor_domain() -> Seq<u8> {
    "klotho-anchor-v1".spec_bytes()
}

/// Bytes hashed for an identity: the domain, then the namespace and the
/// token, each after its length as four little-endian bytes.
pub open spec fn derive_input(domain: Seq<u8>, ns: Seq<u8>, token: Seq<u8>) -> Seq<u8> {
    domain + u32_bytes((ns.len() as u32) as int) + ns + u32_bytes((token.len() as u32) as int) + token
}

/// The first sixteen bytes of the digest of `derive_input(domain, ns, token)`.
pub open spec fn spec_derive(domain: Seq<u8>, ns: Seq<u8>, token: Seq<u8>) -> Seq<u8> {
    blake3_digest(derive_input(domain, ns, token)).take(16)
}

/// Identity under `domain`: the digest of the framed namespace and token,
/// truncated to sixteen bytes.
pub(crate) fn derive_in(domain: &[u8], namespace: &[u8], token: &[u8]) -> (r: AnchorId)
    ensures
        r.0@ == spec_derive(domain@, namespace@, token@),
{
    let mut buf: Vec<u8> = Vec::new();
    append_bytes(&mut buf, domain);
    push_u32(&mut buf, namespace.len() as u32);
    append_bytes(&mut buf, namespace);
    push_u32(&mut buf, token.len() as u32);
    append_bytes(&mut buf, token);
    assert(buf@ =~= derive_input(domain@, namespace@, token@));
    let h = hash_bytes(buf.as_slice());
    let b = h.0;
    let out: [u8; 16] = [
        b[0],
        b[1],
        b[2],
        b[3],
        b[4],
        b[5],
        b[6],
        b[7],
        b[8],
        b[9],
        b[10],
        b[11],
        b[12],
        b[13],
        b[14],
        b[15],
    ];
    assert(out@ =~= b@.take(16));
    AnchorId(out)
}

impl AnchorId {
    /// All-zero id. Never assigned to a real object.
    pub fn zero() -> (r: AnchorId)
        ensures
            r.0@ == zero16(),
    {
        let r = AnchorId([0u8; 16]);
        assert(r.0@ =~= zero16());
        r
    }

    /// Deterministic identity from a project namespace and an
    /// operation-local token.
    pub fn derive(namespace: &[u8], token: &[u8]) -> (r: AnchorId)
        ensures
            r.0@ == spec_derive(anchor_domain(), namespace@, token@),
    {
        derive_in("klotho-anchor-v1".as_bytes(), namespace, token)
    }

    /// Child identity from the parent and a local id; pattern expansion
    /// uses it.
    pub fn child(self, local_id: &[u8]) -> (r: AnchorId)
        ensures
            r.0@ == spec_derive(anchor_domain(), self.0@, local_id@),
    {
        AnchorId::derive(self.0.as_slice(), local_id)
    }

    /// Construct from raw bytes.
    pub fn from_bytes(bytes: [u8; 16]) -> (r: AnchorId)
        ensures
            r.0 == bytes,
    {
        AnchorId(bytes)
    }

    /// Borrow the bytes.
    pub fn as_bytes(&self) -> (r: &[u8; 16])
        ensures
            *r == self.0,
    {
        &self.0
    }

    /// `true` for the all-zero id.
    pub fn is_zero(&self) -> (r: bool)
        ensures
            r == (self.0@ == zero16()),
    {
        let mut i: usize = 0;
        while i < 16
            invariant
                i <= 16,
                forall|j: int| 0 <= j < i ==> self.0@[j] == 0,
            decreases 16 - i,
        {
            if self.0[i] != 0 {
                assert(self.0@[i as int] != zero16()[i as int]);
                return false;
            }
            i += 1;
        }
        assert(self.0@ =~= zero16());
        true
    }

    /// 32 lower-case hex characters, as the id displays.
    pub fn to_hex(&self) -> (s: String)
        ensures
            s@ == hex_text(self.0@),
    {
        let mut s = String::new();
        let mut i: usize = 0;
        while i < 16
            invariant
                i <= 16,
                s@ == hex_text(self.0@.take(i as int)),
            decreases 16 - i,
        {
            let b = self.0[i];
            s.append(crate::hash::hex_digit_str(b / 16));
            s.append(crate::hash::hex_digit_str(b % 16));
            assert(self.0@.take(i + 1).drop_last() =~= self.0@.take(i as int));
            i += 1;
        }
        assert(self.0@.take(16) =~= self.0@);
        s
    }
}

/// Parse exactly 32 hex digits (the bytes of `s`) into an id's 16 bytes.
pub fn parse_hex16(s: &str) -> (r: Result<[u8; 16], &'static str>)
    ensures
        match (r, spec_parse_hex16(s.spec_bytes())) {
            (Ok(out), Some(v)) => out@ == v,
            (Err(_), None) => true,
            _ => false,
        },
{
    let bytes = s.as_bytes();
    if bytes.len() != 32 {
        return Err("anchor must be 32 hex characters");
    }
    let mut out = [0u8; 16];
    let mut i: usize = 0;
    while i < 16
        invariant
            i <= 16,
            bytes@ == s.spec_bytes(),
            bytes@.len() == 32,
            forall|j: int| 0 <= j < 2 * i ==> (#[trigger] hex_value(bytes@[j])) is Some,
            forall|j: int| 0 <= j < i ==> #[trigger] out[j] == parsed_byte(bytes@, j),
        decreases 16 - i,
    {
        let hi = match hex_val(bytes[i * 2]) {
            Ok(v) => v,
            Err(_) => {
                assert(!all_hex(bytes@));
                return Err("anchor contains a non-hex character");
            },
        };
        let lo = match hex_val(bytes[i * 2 + 1]) {
            Ok(v) => v,
            Err(_) => {
                assert(!all_hex(bytes@));
                return Err("anchor contains a non-hex character");
            },
        };
        out[i] = hi * 16 + lo;
        i += 1;
    }
    assert(out@ =~= Seq::new(16, |k: int| parsed_byte(bytes@, k)));
    Ok(out)
}

/// Kind of a named authoring object. Packed values are frozen.
#[derive(Copy, Clone, PartialEq, Eq, Structural, PartialOrd, Ord, Hash, Debug)]
pub enum AnchorKind {
    /// The module itself.
    Module,
    /// Seed locus.
    Locus,
    /// Law id.
    Law,
    /// Affordance id.
    Affordance,
    /// Rite id.
    Rite,
    /// Beat id.
    Beat,
    /// Mind spec (actor locus).
    Mind,
    /// Pattern instance. Expanded before flatten; never present at runtime.
    Pattern,
}

impl AnchorKind {
    /// Packed value: declaration order from zero.
    pub fn as_u8(self) -> (r: u8)
        ensures
            r == match self {
                AnchorKind::Module => 0u8,
                AnchorKind::Locus => 1,
                AnchorKind::Law => 2,
                AnchorKind::Affordance => 3,
                AnchorKind::Rite => 4,
                AnchorKind::Beat => 5,
                AnchorKind::Mind => 6,
                AnchorKind::Pattern => 7,
            },
    {
        match self {
            AnchorKind::Module => 0,
            AnchorKind::Locus => 1,
            AnchorKind::Law => 2,
            AnchorKind::Affordance => 3,
            AnchorKind::Rite => 4,
            AnchorKind::Beat => 5,
            AnchorKind::Mind => 6,
            AnchorKind::Pattern => 7,
        }
    }
}

/// Kind of a [`SourceSpan`] record.
#[derive(Copy, Clone, PartialEq, Eq, Structural, PartialOrd, Ord, Hash, Debug)]
pub enum SpanKind {
    /// `style` block.
    Style,
    /// One canon diff.
    CanonDiff,
    /// One seed fact.
    Seed,
    /// One mind spec.
    Mind,
    /// One parameter declaration.
    Parameter,
    /// One import.
    Import,
    /// One export name.
    Export,
    /// One pattern instance.
    Pattern,
}

/// Stable span back to a module item. Offsets are over a per-kind canonical stream.
#[derive(Clone, PartialEq, Eq, Hash, Debug)]
pub struct SourceSpan {
    /// Module that authored the item.
    pub module: AnchorId,
    /// Item family.
    pub kind: SpanKind,
    /// Index within that family in the module.
    pub index: u32,
    /// Inclusive start byte in the kind's canonical stream.
    pub start: u32,
    /// Exclusive end byte.
    pub end: u32,
}

} // verus!

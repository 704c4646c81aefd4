//! 32-byte content hashes and CAS blob ids, with their hex text form.
use vstd::prelude::*;
use vstd::string::StringSliceAdditionalSpecFns;

verus! {

/// 32-byte digest. The bytes are opaque here.
#[derive(Copy, Clone, PartialEq, Eq, Ord, PartialOrd, Hash, Debug, Default)]
pub struct Hash(pub [u8; 32]);

/// Content-addressed blob id. Same width as [`Hash`]; a distinct type.
#[derive(Copy, Clone, PartialEq, Eq, Ord, PartialOrd, Hash, Debug, Default)]
pub struct BlobId(pub [u8; 32]);

/// Thirty-two zero bytes.
pub open spec fn zero_bytes() -> Seq<u8> {
    Seq::new(32, |i: int| 0u8)
}

/// Lower-case hex digit of a nibble.
pub open spec fn hex_digit(n: int) -> char {
    if n < 10 {
        (('0' as int) + n) as char
    } else {
        (('a' as int) + n - 10) as char
    }
}

/// Lower-case hex text of a byte sequence, high nibble first.
pub open spec fn hex_text(b: Seq<u8>) -> Seq<char>
    decreases b.len(),
{
    if b.len() == 0 {
        Seq::empty()
    } else {
        hex_text(b.drop_last()).push(hex_digit(b.last() as int / 16)).push(
            hex_digit(b.last() as int % 16),
        )
    }
}

/// ASCII code of a lower-case hex digit.
pub open spec fn hex_digit_byte(n: int) -> u8 {
    if n < 10 {
        (48 + n) as u8
    } else {
        (97 + n - 10) as u8
    }
}

/// Lower-case hex rendering of bytes as ASCII bytes, high nibble first.
pub open spec fn hex_bytes(b: Seq<u8>) -> Seq<u8> {
    Seq::new(2 * b.len(), |i: int| hex_digit_byte(if i % 2 == 0 { b[i / 2] as int / 16 } else { b[i / 2] as int % 16 }))
}

/// Value of one ASCII hex digit (either case), or `None`.
pub open spec fn hex_value(c: u8) -> Option<int> {
    if 48 <= c <= 57 {
        Some(c - 48)
    } else if 97 <= c <= 102 {
        Some(c - 97 + 10)
    } else if 65 <= c <= 70 {
        Some(c - 65 + 10)
    } else {
        None
    }
}

/// All 64 characters are hex digits.
pub open spec fn all_hex(s: Seq<u8>) -> bool {
    forall|i: int| 0 <= i < s.len() ==> (#[trigger] hex_value(s[i])) is Some
}

/// Byte `i` of a parsed 64-digit hex string.
pub open spec fn parsed_byte(s: Seq<u8>, i: int) -> u8 {
    (hex_value(s[2 * i]).unwrap() * 16 + hex_value(s[2 * i + 1]).unwrap()) as u8
}

/// Parse of exactly 64 hex digits into 32 bytes.
pub open spec fn spec_parse_hex32(s: Seq<u8>) -> Option<Seq<u8>> {
    if s.len() != 64 || !all_hex(s) {
        None
    } else {
        Some(Seq::new(32, |i: int| parsed_byte(s, i)))
    }
}

impl Hash {
    /// All-zero digest. Never a valid Canon hash of a cooked warp.
    pub fn zero() -> (r: Hash)
        ensures
            r.0@ == zero_bytes(),
    {
        let r = Hash([0u8; 32]);
        assert(r.0@ =~= zero_bytes());
        r
    }

    /// Construct from raw bytes.
    pub fn from_bytes(bytes: [u8; 32]) -> (r: Hash)
        ensures
            r.0 == bytes,
    {
        Hash(bytes)
    }

    /// Borrow the bytes.
    pub fn as_bytes(&self) -> (r: &[u8; 32])
        ensures
            *r == self.0,
    {
        &self.0
    }

    /// Every byte is zero.
    pub fn is_zero(&self) -> (r: bool)
        ensures
            r == (self.0@ == zero_bytes()),
    {
        let mut i: usize = 0;
        while i < 32
            invariant
                i <= 32,
                forall|j: int| 0 <= j < i ==> self.0[j] == 0,
            decreases 32 - i,
        {
            if self.0[i] != 0 {
                assert(self.0@[i as int] != zero_bytes()[i as int]);
                return false;
            }
            i += 1;
        }
        assert(self.0@ =~= zero_bytes());
        true
    }

    /// XOR two hashes, bytewise.
    pub fn bitxor(self, other: Hash) -> (r: Hash)
        ensures
            forall|i: int| 0 <= i < 32 ==> #[trigger] r.0[i] == self.0[i] ^ other.0[i],
    {
        let mut out = [0u8; 32];
        let mut i: usize = 0;
        while i < 32
            invariant
                i <= 32,
                forall|j: int| 0 <= j < i ==> #[trigger] out[j] == self.0[j] ^ other.0[j],
            decreases 32 - i,
        {
            out[i] = self.0[i] ^ other.0[i];
            i += 1;
        }
        Hash(out)
    }

    /// 64 lower-case hex characters.
    pub fn to_hex(&self) -> (s: String)
        ensures
            s@ == hex_text(self.0@),
    {
        assert(self.0@.take(32) =~= self.0@);
        to_hex_prefix(&self.0, 32)
    }
}

impl BlobId {
    /// All-zero id. Not a cooked hull.
    pub fn zero() -> (r: BlobId)
        ensures
            r.0@ == zero_bytes(),
    {
        let r = BlobId([0u8; 32]);
        assert(r.0@ =~= zero_bytes());
        r
    }

    /// Construct from raw bytes.
    pub fn from_bytes(bytes: [u8; 32]) -> (r: BlobId)
        ensures
            r.0 == bytes,
    {
        BlobId(bytes)
    }

    /// Borrow the bytes.
    pub fn as_bytes(&self) -> (r: &[u8; 32])
        ensures
            *r == self.0,
    {
        &self.0
    }

    /// Short display form: `blob:` then the first four bytes in hex, then an ellipsis.
    pub fn to_short_string(&self) -> (s: String)
        ensures
            s@ == seq!['b', 'l', 'o', 'b', ':'] + hex_text(self.0@.take(4)) + seq!['\u{2026}'],
    {
        let mut s = String::new();
        let head = "blob:";
        proof {
            reveal_strlit("blob:");
        }
        s.append(head);
        let h = to_hex_prefix(&self.0, 4);
        s.append(h.as_str());
        let tail = "\u{2026}";
        proof {
            reveal_strlit("\u{2026}");
        }
        s.append(tail);
        s
    }
}

pub(crate) fn hex_digit_str(n: u8) -> (r: &'static str)
    requires
        n < 16,
    ensures
        r@ == seq![hex_digit(n as int)],
{
    match n {
        0 => { proof { reveal_strlit("0"); } "0" },
        1 => { proof { reveal_strlit("1"); } "1" },
        2 => { proof { reveal_strlit("2"); } "2" },
        3 => { proof { reveal_strlit("3"); } "3" },
        4 => { proof { reveal_strlit("4"); } "4" },
        5 => { proof { reveal_strlit("5"); } "5" },
        6 => { proof { reveal_strlit("6"); } "6" },
        7 => { proof { reveal_strlit("7"); } "7" },
        8 => { proof { reveal_strlit("8"); } "8" },
        9 => { proof { reveal_strlit("9"); } "9" },
        10 => { proof { reveal_strlit("a"); } "a" },
        11 => { proof { reveal_strlit("b"); } "b" },
        12 => { proof { reveal_strlit("c"); } "c" },
        13 => { proof { reveal_strlit("d"); } "d" },
        14 => { proof { reveal_strlit("e"); } "e" },
        _ => { proof { reveal_strlit("f"); } "f" },
    }
}

/// Hex text of the first `n` bytes.
fn to_hex_prefix(bytes: &[u8; 32], n: usize) -> (s: String)
    requires
        n <= 32,
    ensures
        s@ == hex_text(bytes@.take(n as int)),
{
    let mut s = String::new();
    let mut i: usize = 0;
    while i < n
        invariant
            i <= n <= 32,
            s@ == hex_text(bytes@.take(i as int)),
        decreases n - i,
    {
        let b = bytes[i];
        s.append(hex_digit_str(b / 16));
        s.append(hex_digit_str(b % 16));
        assert(bytes@.take(i + 1).drop_last() =~= bytes@.take(i as int));
        i += 1;
    }
    s
}

/// Value of one ASCII hex digit (either case).
pub fn hex_val(b: u8) -> (r: Result<u8, &'static str>)
    ensures
        match (r, hex_value(b)) {
            (Ok(v), Some(w)) => v == w,
            (Err(_), None) => true,
            _ => false,
        },
{
    if 48 <= b && b <= 57 {
        Ok(b - 48)
    } else if 97 <= b && b <= 102 {
        Ok(b - 97 + 10)
    } else if 65 <= b && b <= 70 {
        Ok(b - 65 + 10)
    } else {
        Err("digest contains a non-hex character")
    }
}

/// Parse exactly 64 hex digits (the bytes of `s`) into 32 bytes.
pub fn parse_hex32(s: &str) -> (r: Result<[u8; 32], &'static str>)
    ensures
        match (r, spec_parse_hex32(s.spec_bytes())) {
            (Ok(out), Some(v)) => out@ == v,
            (Err(_), None) => true,
            _ => false,
        },
{
    let bytes = s.as_bytes();
    if bytes.len() != 64 {
        return Err("digest must be 64 hex characters");
    }
    let mut out = [0u8; 32];
    let mut i: usize = 0;
    while i < 32
        invariant
            i <= 32,
            bytes@ == s.spec_bytes(),
            bytes@.len() == 64,
            forall|j: int| 0 <= j < 2 * i ==> (#[trigger] hex_value(bytes@[j])) is Some,
            forall|j: int| 0 <= j < i ==> #[trigger] out[j] == parsed_byte(bytes@, j),
        decreases 32 - i,
    {
        let hi = match hex_val(bytes[i * 2]) {
            Ok(v) => v,
            Err(e) => {
                assert(!all_hex(bytes@));
                return Err(e);
            },
        };
        let lo = match hex_val(bytes[i * 2 + 1]) {
            Ok(v) => v,
            Err(e) => {
                assert(!all_hex(bytes@));
                return Err(e);
            },
        };
        out[i] = hi * 16 + lo;
        i += 1;
    }
    assert(out@ =~= Seq::new(32, |k: int| parsed_byte(bytes@, k)));
    Ok(out)
}

/// Parsing the hex rendering of 32 bytes gives those bytes back.
pub proof fn lemma_hex_round_trip(b: Seq<u8>)
    requires
        b.len() == 32,
    ensures
        spec_parse_hex32(hex_bytes(b)) == Some(b),
{
    let h = hex_bytes(b);
    assert forall|i: int| 0 <= i < h.len() implies (#[trigger] hex_value(h[i])) is Some by {
        let n = if i % 2 == 0 { b[i / 2] as int / 16 } else { b[i / 2] as int % 16 };
        assert(0 <= n < 16);
    }
    assert forall|k: int| 0 <= k < 32 implies #[trigger] parsed_byte(h, k) == b[k] by {
        let hi = b[k] as int / 16;
        let lo = b[k] as int % 16;
        assert((2 * k) / 2 == k && (2 * k + 1) / 2 == k);
        assert((2 * k) % 2 == 0 && (2 * k + 1) % 2 == 1);
        assert(hex_value(h[2 * k]) == Some(hi));
        assert(hex_value(h[2 * k + 1]) == Some(lo));
    }
    assert(Seq::new(32, |i: int| parsed_byte(h, i)) =~= b);
}

/// BLAKE3 digest of a byte string (32 bytes).
pub uninterp spec fn blake3_digest(bytes: Seq<u8>) -> Seq<u8>;

/// Content hash of `bytes`: `blake3::hash`. Its digest depends on the bytes
/// alone; nothing more about it is stated here.
#[verifier::external_body]
pub(crate) fn hash_bytes(bytes: &[u8]) -> (r: Hash)
    ensures
        r.0@ == blake3_digest(bytes@),
{
    Hash(*blake3::hash(bytes).as_bytes())
}

/// Content digest of an artifact's bytes.
pub fn digest_of(bytes: &[u8]) -> (r: Hash)
    ensures
        r.0@ == blake3_digest(bytes@),
{
    hash_bytes(bytes)
}

} // verus!

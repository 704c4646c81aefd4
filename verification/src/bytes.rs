//! Little-endian integer reading and writing on byte sequences.
use vstd::prelude::*;

verus! {

/// Unsigned little-endian 16-bit value at `o`.
pub open spec fn le16(b: Seq<u8>, o: int) -> int {
    b[o] as int + 256 * (b[o + 1] as int)
}

/// Unsigned little-endian 32-bit value at `o`.
pub open spec fn le32(b: Seq<u8>, o: int) -> int {
    le16(b, o) + 65536 * le16(b, o + 2)
}

/// Two's-complement reading of a 16-bit pattern.
pub open spec fn signed16(u: int) -> int {
    if u >= 32768 {
        u - 65536
    } else {
        u
    }
}

/// Two's-complement reading of a 32-bit pattern.
pub open spec fn signed32(u: int) -> int {
    if u >= 0x8000_0000 {
        u - 0x1_0000_0000
    } else {
        u
    }
}

/// Little-endian bytes of a 16-bit pattern.
pub open spec fn u16_bytes(x: int) -> Seq<u8> {
    seq![(x % 256) as u8, ((x / 256) % 256) as u8]
}

/// Little-endian bytes of a 32-bit pattern.
pub open spec fn u32_bytes(x: int) -> Seq<u8> {
    seq![
        (x % 256) as u8,
        ((x / 256) % 256) as u8,
        ((x / 65536) % 256) as u8,
        ((x / 16777216) % 256) as u8,
    ]
}

/// 16-bit pattern of a signed value.
pub open spec fn pattern16(v: int) -> int {
    if v < 0 {
        v + 65536
    } else {
        v
    }
}

/// 32-bit pattern of a signed value.
pub open spec fn pattern32(v: int) -> int {
    if v < 0 {
        v + 0x1_0000_0000
    } else {
        v
    }
}

/// Read `u16` little-endian at `o`.
pub fn read_u16(b: &[u8], o: usize) -> (r: u16)
    requires
        o + 2 <= b@.len(),
    ensures
        r == le16(b@, o as int),
{
    (b[o] as u16) + (b[o + 1] as u16) * 256
}

/// Read `u32` little-endian at `o`.
pub fn read_u32(b: &[u8], o: usize) -> (r: u32)
    requires
        o + 4 <= b@.len(),
    ensures
        r == le32(b@, o as int),
{
    (b[o] as u32) + (b[o + 1] as u32) * 256 + (b[o + 2] as u32) * 65536 + (b[o + 3] as u32)
        * 16777216
}

/// Read `i16` little-endian at `o`.
pub fn read_i16(b: &[u8], o: usize) -> (r: i16)
    requires
        o + 2 <= b@.len(),
    ensures
        r == signed16(le16(b@, o as int)),
{
    let u = read_u16(b, o);
    if u >= 32768 {
        ((u as i32) - 65536) as i16
    } else {
        u as i16
    }
}

/// Read `i32` little-endian at `o`.
pub fn read_i32(b: &[u8], o: usize) -> (r: i32)
    requires
        o + 4 <= b@.len(),
    ensures
        r == signed32(le32(b@, o as int)),
{
    let u = read_u32(b, o);
    if u >= 0x8000_0000 {
        ((u as i64) - 0x1_0000_0000) as i32
    } else {
        u as i32
    }
}

/// Append `x` as two little-endian bytes.
pub fn push_u16(buf: &mut Vec<u8>, x: u16)
    ensures
        final(buf)@ == old(buf)@ + u16_bytes(x as int),
{
    buf.push((x % 256) as u8);
    buf.push((x / 256) as u8);
    assert(final(buf)@ =~= old(buf)@ + u16_bytes(x as int));
}

/// Append `x` as four little-endian bytes.
pub fn push_u32(buf: &mut Vec<u8>, x: u32)
    ensures
        final(buf)@ == old(buf)@ + u32_bytes(x as int),
{
    buf.push((x % 256) as u8);
    buf.push(((x / 256) % 256) as u8);
    buf.push(((x / 65536) % 256) as u8);
    buf.push((x / 16777216) as u8);
    assert(final(buf)@ =~= old(buf)@ + u32_bytes(x as int));
}

/// 16-bit pattern of a signed value.
pub fn i16_pattern(v: i16) -> (r: u16)
    ensures
        r == pattern16(v as int),
{
    if v < 0 {
        ((v as i32) + 65536) as u16
    } else {
        v as u16
    }
}

/// 32-bit pattern of a signed value.
pub fn i32_pattern(v: i32) -> (r: u32)
    ensures
        r == pattern32(v as int),
{
    if v < 0 {
        ((v as i64) + 0x1_0000_0000) as u32
    } else {
        v as u32
    }
}

/// Reading back two written bytes gives the 16-bit pattern.
pub proof fn lemma_le16_of_bytes(x: int, pre: Seq<u8>, post: Seq<u8>)
    requires
        0 <= x < 65536,
    ensures
        le16(pre + u16_bytes(x) + post, pre.len() as int) == x,
{
    let s = pre + u16_bytes(x) + post;
    assert(s[pre.len() as int] == (x % 256) as u8);
    assert(s[pre.len() as int + 1] == ((x / 256) % 256) as u8);
    assert(x % 256 + 256 * ((x / 256) % 256) == x) by (nonlinear_arith)
        requires
            0 <= x < 65536,
    ;
}

/// Reading back four written bytes gives the 32-bit pattern.
pub proof fn lemma_le32_of_bytes(x: int, pre: Seq<u8>, post: Seq<u8>)
    requires
        0 <= x < 0x1_0000_0000,
    ensures
        le32(pre + u32_bytes(x) + post, pre.len() as int) == x,
{
    let s = pre + u32_bytes(x) + post;
    let n = pre.len() as int;
    assert(s[n] == (x % 256) as u8);
    assert(s[n + 1] == ((x / 256) % 256) as u8);
    assert(s[n + 2] == ((x / 65536) % 256) as u8);
    assert(s[n + 3] == ((x / 16777216) % 256) as u8);
    assert(x % 256 + 256 * ((x / 256) % 256) + 65536 * (((x / 65536) % 256) + 256 * ((x
        / 16777216) % 256)) == x) by (nonlinear_arith)
        requires
            0 <= x < 0x1_0000_0000,
    ;
}

/// The signed reading of a pattern is the value itself.
pub proof fn lemma_signed16_pattern(v: int)
    requires
        -32768 <= v < 32768,
    ensures
        signed16(pattern16(v)) == v,
        0 <= pattern16(v) < 65536,
{
}

/// The signed reading of a pattern is the value itself.
pub proof fn lemma_signed32_pattern(v: int)
    requires
        -0x8000_0000 <= v < 0x8000_0000,
    ensures
        signed32(pattern32(v)) == v,
        0 <= pattern32(v) < 0x1_0000_0000,
{
}

/// Readings inside a prefix are unchanged when bytes are appended.
pub proof fn lemma_readings_extend(a: Seq<u8>, b: Seq<u8>)
    requires
        a.len() <= b.len(),
        b.take(a.len() as int) == a,
    ensures
        forall|o: int| 0 <= o && o + 2 <= a.len() ==> #[trigger] le16(b, o) == le16(a, o),
        forall|o: int| 0 <= o && o + 4 <= a.len() ==> #[trigger] le32(b, o) == le32(a, o),
        forall|o: int| 0 <= o < a.len() ==> #[trigger] b[o] == a[o],
        forall|n: int| 0 <= n <= a.len() ==> #[trigger] b.take(n) == a.take(n),
{
    assert forall|o: int| 0 <= o < a.len() implies #[trigger] b[o] == a[o] by {
        assert(b.take(a.len() as int)[o] == b[o]);
    }
    assert forall|n: int| 0 <= n <= a.len() implies #[trigger] b.take(n) == a.take(n) by {
        assert(b.take(n) =~= a.take(n));
    }
    assert forall|o: int| 0 <= o && o + 2 <= a.len() implies #[trigger] le16(b, o) == le16(a, o) by {
        assert(b[o] == a[o] && b[o + 1] == a[o + 1]);
    }
    assert forall|o: int| 0 <= o && o + 4 <= a.len() implies #[trigger] le32(b, o) == le32(a, o) by {
        assert(b[o] == a[o] && b[o + 1] == a[o + 1] && b[o + 2] == a[o + 2] && b[o + 3] == a[o + 3]);
    }
}

/// Appending keeps the old bytes as a prefix.
pub proof fn lemma_append_prefix(a: Seq<u8>, x: Seq<u8>)
    ensures
        (a + x).take(a.len() as int) == a,
        (a + x).len() == a.len() + x.len(),
{
    assert((a + x).take(a.len() as int) =~= a);
}

/// The 16-bit reading of freshly appended bytes.
pub proof fn lemma_le16_appended(a: Seq<u8>, x: int)
    requires
        0 <= x < 65536,
    ensures
        le16(a + u16_bytes(x), a.len() as int) == x,
{
    lemma_le16_of_bytes(x, a, Seq::empty());
    assert(a + u16_bytes(x) + Seq::<u8>::empty() =~= a + u16_bytes(x));
}

/// The 32-bit reading of freshly appended bytes.
pub proof fn lemma_le32_appended(a: Seq<u8>, x: int)
    requires
        0 <= x < 0x1_0000_0000,
    ensures
        le32(a + u32_bytes(x), a.len() as int) == x,
{
    lemma_le32_of_bytes(x, a, Seq::empty());
    assert(a + u32_bytes(x) + Seq::<u8>::empty() =~= a + u32_bytes(x));
}

/// Append every byte of `b`.
pub fn append_bytes(out: &mut Vec<u8>, b: &[u8])
    ensures
        final(out)@ == old(out)@ + b@,
{
    let ghost start = out@;
    let mut i: usize = 0;
    while i < b.len()
        invariant
            0 <= i <= b@.len(),
            out@ == start + b@.take(i as int),
        decreases b@.len() - i,
    {
        out.push(b[i]);
        i = i + 1;
        assert(out@ =~= start + b@.take(i as int));
    }
    assert(b@.take(b@.len() as int) =~= b@);
}

} // verus!

//! The fixed header of the `.warp` container: magic, version, pad, compiler
//! version, the optimized flag and the two cook hashes.
use vstd::prelude::*;

use crate::bytes::{le32, lemma_le32_of_bytes, read_u32, u32_bytes};
use crate::failure::{concat, decimal, spec_decimal, text, CompileError};

verus! {

/// Container version written today. Version 1 (no optimized flag) still reads.
pub const WARP_VERSION: u8 = 3;

/// Desktop file cap, applied before parsing.
pub const WARP_CAP_DESKTOP: usize = 536_870_912;

/// Mobile file cap.
pub const WARP_CAP_MOBILE: usize = 201_326_592;

/// Seed locus cap.
pub const WARP_MAX_LOCI: usize = 4_096;

/// Compiler version stamped into every container.
pub const COMPILER_VERSION: u32 = 1;

/// Container magic, distinct from the blob magic.
pub open spec fn spec_warp_magic() -> Seq<u8> {
    seq![75u8, 87, 82, 80]
}

/// Container magic `KWRP`.
pub fn warp_magic() -> (r: [u8; 4])
    ensures
        r@ == spec_warp_magic(),
{
    let r = [75u8, 87, 82, 80];
    assert(r@ =~= spec_warp_magic());
    r
}

/// What the header carries.
#[derive(Clone, PartialEq, Eq, Debug)]
pub struct WarpHeader {
    /// Container version read (1 or 3).
    pub version: u8,
    /// Whether the cook was optimized (always false for version 1).
    pub optimized: bool,
    /// Cook digest.
    pub cook_hash: crate::hash::Hash,
    /// Canon digest.
    pub canon_hash: crate::hash::Hash,
}

/// Why the header at the start of `b` is refused, in reading order, or
/// what it holds and where the body starts.
pub open spec fn warp_header_read(b: Seq<u8>) -> Result<(int, bool, Seq<u8>, Seq<u8>, int), Seq<char>> {
    if b.len() > WARP_CAP_DESKTOP {
        Err("file "@ + spec_decimal(b.len()) + " bytes exceeds cap "@ + spec_decimal(WARP_CAP_DESKTOP as nat))
    } else if b.len() < 4 {
        Err("truncated"@)
    } else if b.take(4) != spec_warp_magic() {
        Err("bad magic"@)
    } else if b.len() < 5 {
        Err("truncated"@)
    } else if b[4] != 1 && b[4] != WARP_VERSION {
        Err("bad version "@ + spec_decimal(b[4] as nat))
    } else if b.len() < 8 {
        Err("truncated"@)
    } else if !(b[5] == 0 && b[6] == 0 && b[7] == 0) {
        Err("bad pad"@)
    } else if b.len() < 12 {
        Err("truncated"@)
    } else if le32(b, 8) != COMPILER_VERSION {
        Err("compiler version "@ + spec_decimal(le32(b, 8) as nat))
    } else {
        let flag = if b[4] >= 3 { 1int } else { 0int };
        if b.len() < 12 + flag + 64 {
            Err("truncated"@)
        } else {
            Ok(
                (
                    b[4] as int,
                    flag == 1 && b[12] != 0,
                    b.subrange(12 + flag, 44 + flag),
                    b.subrange(44 + flag, 76 + flag),
                    76 + flag,
                ),
            )
        }
    }
}

fn warp_error(m: &str) -> (e: CompileError)
    ensures
        e matches CompileError::Warp(t) && t@ == m@,
{
    CompileError::Warp(text(m))
}

fn read32(b: &[u8], o: usize) -> (r: [u8; 32])
    requires
        o + 32 <= b@.len(),
    ensures
        r@ == b@.subrange(o as int, o + 32),
{
    crate::placement::read_array32(b, o)
}

/// Read the container header. On success, the header and the offset where
/// the intent document's length field starts.
pub fn read_warp_header(bytes: &[u8]) -> (r: Result<(WarpHeader, usize), CompileError>)
    ensures
        match warp_header_read(bytes@) {
            Err(m) => r matches Err(CompileError::Warp(t)) && t@ == m,
            Ok((v, opt, cook, canon, end)) => r matches Ok((h, e)) && h.version == v && h.optimized == opt
                && h.cook_hash.0@ == cook && h.canon_hash.0@ == canon && e == end,
        },
{
    let n = bytes.len();
    if n > WARP_CAP_DESKTOP {
        let mut m = text("file ");
        let a = decimal(n as u64);
        m.append(a.as_str());
        m.append(" bytes exceeds cap ");
        let c = decimal(WARP_CAP_DESKTOP as u64);
        m.append(c.as_str());
        return Err(CompileError::Warp(m));
    }
    if n < 4 {
        return Err(warp_error("truncated"));
    }
    if !(bytes[0] == 75 && bytes[1] == 87 && bytes[2] == 82 && bytes[3] == 80) {
        proof {
            if bytes@.take(4) == spec_warp_magic() {
                assert(bytes@.take(4)[0] == bytes@[0]);
                assert(bytes@.take(4)[1] == bytes@[1]);
                assert(bytes@.take(4)[2] == bytes@[2]);
                assert(bytes@.take(4)[3] == bytes@[3]);
            }
        }
        return Err(warp_error("bad magic"));
    }
    assert(bytes@.take(4) =~= spec_warp_magic());
    if n < 5 {
        return Err(warp_error("truncated"));
    }
    let version = bytes[4];
    if version != 1 && version != WARP_VERSION {
        let d = decimal(version as u64);
        return Err(CompileError::Warp(concat("bad version ", d.as_str())));
    }
    if n < 8 {
        return Err(warp_error("truncated"));
    }
    if !(bytes[5] == 0 && bytes[6] == 0 && bytes[7] == 0) {
        return Err(warp_error("bad pad"));
    }
    if n < 12 {
        return Err(warp_error("truncated"));
    }
    let compiler = read_u32(bytes, 8);
    if compiler != COMPILER_VERSION {
        let d = decimal(compiler as u64);
        return Err(CompileError::Warp(concat("compiler version ", d.as_str())));
    }
    let flag: usize = if version >= 3 {
        1
    } else {
        0
    };
    if n < 12 + flag + 64 {
        return Err(warp_error("truncated"));
    }
    let optimized = flag == 1 && bytes[12] != 0;
    let cook_hash = crate::hash::Hash(read32(bytes, 12 + flag));
    let canon_hash = crate::hash::Hash(read32(bytes, 44 + flag));
    Ok((WarpHeader { version, optimized, cook_hash, canon_hash }, 76 + flag))
}

/// Header bytes for a current-version container.
pub open spec fn warp_header_bytes(optimized: bool, cook: Seq<u8>, canon: Seq<u8>) -> Seq<u8> {
    spec_warp_magic() + seq![WARP_VERSION, 0u8, 0u8, 0u8] + u32_bytes(COMPILER_VERSION as int) + seq![
        if optimized {
            1u8
        } else {
            0u8
        },
    ] + cook + canon
}

/// Write the header of a current-version container.
pub fn write_warp_header(buf: &mut Vec<u8>, optimized: bool, cook_hash: &crate::hash::Hash, canon_hash: &crate::hash::Hash)
    ensures
        final(buf)@ == old(buf)@ + warp_header_bytes(optimized, cook_hash.0@, canon_hash.0@),
{
    let ghost start = buf@;
    buf.push(75);
    buf.push(87);
    buf.push(82);
    buf.push(80);
    buf.push(WARP_VERSION);
    buf.push(0);
    buf.push(0);
    buf.push(0);
    crate::bytes::push_u32(buf, COMPILER_VERSION);
    buf.push(if optimized {
        1
    } else {
        0
    });
    crate::bytes::append_bytes(buf, &cook_hash.0);
    crate::bytes::append_bytes(buf, &canon_hash.0);
    assert(buf@ =~= start + warp_header_bytes(optimized, cook_hash.0@, canon_hash.0@));
}

/// A written header reads back: version 3, the flag, both hashes, and the
/// body right after them.
pub proof fn lemma_warp_header_round_trip(optimized: bool, cook: Seq<u8>, canon: Seq<u8>, body: Seq<u8>)
    requires
        cook.len() == 32,
        canon.len() == 32,
        77 + body.len() <= WARP_CAP_DESKTOP,
    ensures
        warp_header_read(warp_header_bytes(optimized, cook, canon) + body) == Ok::<
            (int, bool, Seq<u8>, Seq<u8>, int),
            Seq<char>,
        >((3, optimized, cook, canon, 77)),
{
    let flagb: u8 = if optimized {
        1u8
    } else {
        0u8
    };
    let pre = spec_warp_magic() + seq![WARP_VERSION, 0u8, 0u8, 0u8];
    let b = warp_header_bytes(optimized, cook, canon) + body;
    assert(b =~= pre + u32_bytes(COMPILER_VERSION as int) + (seq![flagb] + cook + canon + body));
    lemma_le32_of_bytes(COMPILER_VERSION as int, pre, seq![flagb] + cook + canon + body);
    assert(b.take(4) =~= spec_warp_magic());
    assert(b[4] == 3);
    assert(b[5] == 0 && b[6] == 0 && b[7] == 0);
    assert(b[12] == flagb);
    assert(b.subrange(13, 45) =~= cook);
    assert(b.subrange(45, 77) =~= canon);
}

} // verus!

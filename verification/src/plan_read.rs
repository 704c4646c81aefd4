//! Reading and validating the model-free whole-title runtime plan.
use vstd::prelude::*;
use vstd::string::StringSliceAdditionalSpecFns;
use vstd::utf8::{decode_utf8, valid_utf8};

use crate::bytes::{le16, le32, lemma_le16_of_bytes, lemma_le32_of_bytes, lemma_signed32_pattern, pattern32, read_i32, read_u16, read_u32, signed32, u16_bytes, u32_bytes};
use crate::contact::{lex_lt, string_lt, utf8};
use crate::failure::{
    banned_path, check_ship_allowlist, chars_of, concat, normalize_slashes, occurs_at, occurs_at_exec, text,
    CompileError,
};
use crate::hash::{blake3_digest, digest_of, BlobId};
use crate::names::Name;
use crate::placement::{bytes_less, bytes_lt, read_array32, utf8_text};
use crate::plan::{
    assets_bytes, aabb_bytes, field, file_bytes, files_bytes, le_bytes, place_bytes, places_bytes, row_bytes, rows_bytes, sku_bytes, skus_bytes, utf8_of, PackedRow, PlaceBundlePlan,
    spec_plan_bytes, SkuBundlePlan, WholeTitlePlan,
};
use crate::space::{AabbMm, IVec3};
use crate::units::Sigil;

verus! {

/// Cap on table rows and Place bundles.
pub const MAX_PLAN_ROWS: usize = 65535;

/// Cap on Place assets, SKUs and runtime files.
pub const MAX_PLAN_FILES: usize = 16_384;

/// Cap on one runtime file's length (the desktop `.warp` cap).
pub const MAX_PLAN_FILE_BYTES: usize = 536_870_912;

/// The 32-bit count at `o`, refused above `cap`; the offset after it.
pub open spec fn count_at(b: Seq<u8>, o: int, cap: int) -> Result<(int, int), Seq<char>> {
    if o + 4 > b.len() {
        Err("truncated plan"@)
    } else if le32(b, o) > cap {
        Err("plan count cap"@)
    } else {
        Ok((le32(b, o), o + 4))
    }
}

/// The counted UTF-8 text at `o` (at most 64 KiB); the offset after it.
pub open spec fn str_at(b: Seq<u8>, o: int) -> Result<(Seq<char>, int), Seq<char>> {
    match count_at(b, o, 65536) {
        Err(m) => Err(m),
        Ok((n, o1)) => if o1 + n > b.len() {
            Err("truncated plan"@)
        } else if !valid_utf8(b.subrange(o1, o1 + n)) {
            Err("plan utf8"@)
        } else {
            Ok((decode_utf8(b.subrange(o1, o1 + n)), o1 + n))
        },
    }
}

/// One of the four semantic table names.
pub open spec fn table_name_ok(t: Seq<char>) -> bool {
    t == "law"@ || t == "affordance"@ || t == "rite"@ || t == "predicate"@
}

/// A table row at `o`: its name and ids (the model), and the offset after it.
pub open spec fn row_at(b: Seq<u8>, o: int) -> Result<((Seq<char>, int, int), int), Seq<char>> {
    match str_at(b, o) {
        Err(m) => Err(m),
        Ok((t, o1)) => if !table_name_ok(t) {
            Err("unknown table"@)
        } else if o1 + 4 > b.len() {
            Err("truncated plan"@)
        } else {
            Ok(((t, le16(b, o1), le16(b, o1 + 2)), o1 + 4))
        },
    }
}

/// `k` more rows from `o`, after those in `acc`.
pub open spec fn rows_acc(b: Seq<u8>, o: int, k: nat, acc: Seq<(Seq<char>, int, int)>) -> Result<
    (Seq<(Seq<char>, int, int)>, int),
    Seq<char>,
>
    decreases k,
{
    if k == 0 {
        Ok((acc, o))
    } else {
        match row_at(b, o) {
            Err(m) => Err(m),
            Ok((r, o2)) => rows_acc(b, o2, (k - 1) as nat, acc.push(r)),
        }
    }
}

/// Unsigned little-endian 128-bit value at `o`.
pub open spec fn le128(b: Seq<u8>, o: int) -> int {
    le32(b, o) + 0x1_0000_0000 * le32(b, o + 4) + 0x1_0000_0000_0000_0000 * le32(b, o + 8)
        + 0x1_0000_0000_0000_0000_0000_0000 * le32(b, o + 12)
}

/// The 32-byte blob id `i` of the list starting at `o`.
pub open spec fn blob_at(b: Seq<u8>, o: int, i: int) -> Seq<u8> {
    b.subrange(o + 32 * i, o + 32 * i + 32)
}

/// The `n` blob ids from `o` strictly ascend.
pub open spec fn blobs_ascend(b: Seq<u8>, o: int, n: int) -> bool {
    forall|i: int| 0 <= i < n - 1 ==> bytes_lt(#[trigger] blob_at(b, o, i), blob_at(b, o, i + 1))
}

/// A Place bundle at `o` (identity, box, group, counted ascending assets);
/// the model is its offset, and the offset after it follows.
pub open spec fn place_at(b: Seq<u8>, o: int) -> Result<int, Seq<char>> {
    if o + 42 > b.len() {
        Err("truncated plan"@)
    } else {
        match count_at(b, o + 42, MAX_PLAN_FILES as int) {
            Err(m) => Err(m),
            Ok((n, o1)) => if o1 + 32 * n > b.len() {
                Err("truncated plan"@)
            } else if !blobs_ascend(b, o1, n) {
                Err("unsorted Place assets"@)
            } else {
                Ok(o1 + 32 * n)
            },
        }
    }
}

/// `k` more Place bundles from `o`; `acc` holds the offsets read so far.
pub open spec fn places_acc(b: Seq<u8>, o: int, k: nat, acc: Seq<int>) -> Result<(Seq<int>, int), Seq<char>>
    decreases k,
{
    if k == 0 {
        Ok((acc, o))
    } else {
        match place_at(b, o) {
            Err(m) => Err(m),
            Ok(o2) => places_acc(b, o2, (k - 1) as nat, acc.push(o)),
        }
    }
}

/// Bundles ascend strictly by access group, then Place identity.
pub open spec fn places_ascend(b: Seq<u8>, offs: Seq<int>) -> bool {
    forall|i: int|
        0 <= i < offs.len() - 1 ==> {
            let g0 = le16(b, #[trigger] offs[i] + 40);
            let g1 = le16(b, offs[i + 1] + 40);
            g0 < g1 || (g0 == g1 && le128(b, offs[i]) < le128(b, offs[i + 1]))
        }
}

/// The bytes strictly ascend.
pub open spec fn bytes_ascend(s: Seq<u8>) -> bool {
    forall|i: int| 0 <= i < s.len() - 1 ==> #[trigger] s[i] < s[i + 1]
}

/// A SKU at `o`: its id and ascending permutation ids, then the offset after it.
pub open spec fn sku_at(b: Seq<u8>, o: int) -> Result<((Seq<char>, Seq<u8>), int), Seq<char>> {
    match str_at(b, o) {
        Err(m) => Err(m),
        Ok((t, o1)) => match count_at(b, o1, 16) {
            Err(m) => Err(m),
            Ok((n, o2)) => if o2 + n > b.len() {
                Err("truncated plan"@)
            } else if !bytes_ascend(b.subrange(o2, o2 + n)) {
                Err("unsorted permutations"@)
            } else {
                Ok(((t, b.subrange(o2, o2 + n)), o2 + n))
            },
        },
    }
}

/// `k` more SKUs from `o`, after those in `acc`.
pub open spec fn skus_acc(b: Seq<u8>, o: int, k: nat, acc: Seq<(Seq<char>, Seq<u8>)>) -> Result<
    (Seq<(Seq<char>, Seq<u8>)>, int),
    Seq<char>,
>
    decreases k,
{
    if k == 0 {
        Ok((acc, o))
    } else {
        match sku_at(b, o) {
            Err(m) => Err(m),
            Ok((s, o2)) => skus_acc(b, o2, (k - 1) as nat, acc.push(s)),
        }
    }
}

/// Text order: the order of the UTF-8 bytes.
pub open spec fn text_before(a: Seq<char>, b: Seq<char>) -> bool {
    lex_lt(utf8(a), utf8(b))
}

/// Ids strictly ascend.
pub open spec fn ids_ascend(s: Seq<(Seq<char>, Seq<u8>)>) -> bool {
    forall|i: int| 0 <= i < s.len() - 1 ==> text_before(#[trigger] s[i].0, s[i + 1].0)
}

/// A runtime auxiliary path: under one of the runtime roots once
/// backslashes read as slashes.
pub open spec fn runtime_aux(p: Seq<char>) -> bool {
    let n = normalize_slashes(p);
    ||| occurs_at(n, "runtime/"@, 0)
    ||| occurs_at(n, "places/"@, 0)
    ||| occurs_at(n, "cas/"@, 0)
    ||| occurs_at(n, "shaders/"@, 0)
    ||| occurs_at(n, "locales/"@, 0)
    ||| occurs_at(n, "audio/"@, 0)
}

/// A runtime auxiliary path that the ship allowlist accepts.
#[verifier::opaque]
pub open spec fn path_safe(p: Seq<char>) -> bool {
    runtime_aux(p) && !banned_path(normalize_slashes(p))
}

/// Some file in `s` has path `p`.
pub open spec fn has_path(s: Seq<(Seq<char>, Seq<u8>)>, p: Seq<char>) -> bool {
    exists|j: int| 0 <= j < s.len() && (#[trigger] s[j]).0 == p
}

/// `x` inserted into the path-ordered list `s` before the first path it
/// sorts before.
pub open spec fn insert_file(s: Seq<(Seq<char>, Seq<u8>)>, x: (Seq<char>, Seq<u8>)) -> Seq<(Seq<char>, Seq<u8>)>
    decreases s.len(),
{
    if s.len() == 0 {
        seq![x]
    } else if text_before(x.0, s[0].0) {
        seq![x] + s
    } else {
        seq![s[0]] + insert_file(s.drop_first(), x)
    }
}

/// A runtime file at `o`, to be added to `acc`: a safe path not already
/// present, then its counted contents.
pub open spec fn file_at(b: Seq<u8>, o: int, acc: Seq<(Seq<char>, Seq<u8>)>) -> Result<((Seq<char>, Seq<u8>), int), Seq<char>> {
    match str_at(b, o) {
        Err(m) => Err(m),
        Ok((p, o1)) => if !path_safe(p) {
            Err("unsafe runtime path "@ + p)
        } else {
            match count_at(b, o1, MAX_PLAN_FILE_BYTES as int) {
                Err(m) => Err(m),
                Ok((n, o2)) => if o2 + n > b.len() {
                    Err("truncated plan"@)
                } else if has_path(acc, p) {
                    Err("duplicate runtime path"@)
                } else {
                    Ok(((p, b.subrange(o2, o2 + n)), o2 + n))
                },
            }
        },
    }
}

/// `k` more runtime files from `o`, inserted in path order into `acc`.
pub open spec fn files_acc(b: Seq<u8>, o: int, k: nat, acc: Seq<(Seq<char>, Seq<u8>)>) -> Result<
    (Seq<(Seq<char>, Seq<u8>)>, int),
    Seq<char>,
>
    decreases k,
{
    if k == 0 {
        Ok((acc, o))
    } else {
        match file_at(b, o, acc) {
            Err(m) => Err(m),
            Ok((f, o2)) => files_acc(b, o2, (k - 1) as nat, insert_file(acc, f)),
        }
    }
}

/// What a valid plan holds: rows, Place offsets, SKUs and path-ordered files.
pub type PlanModel = (Seq<(Seq<char>, int, int)>, Seq<int>, Seq<(Seq<char>, Seq<u8>)>, Seq<(Seq<char>, Seq<u8>)>);

/// Read the plan bytes: `KOPT`, version 1, counted tables, Place bundles
/// (ascending), SKUs (ascending) and runtime files, and nothing after.
/// The first refusal in reading order is the result's error.
pub open spec fn plan_read(b: Seq<u8>) -> Result<PlanModel, Seq<char>> {
    if b.len() < 4 {
        Err("truncated plan"@)
    } else if b.take(4) != seq![75u8, 79, 80, 84] {
        Err("plan magic/version"@)
    } else if b.len() < 5 {
        Err("truncated plan"@)
    } else if b[4] != 1 {
        Err("plan magic/version"@)
    } else {
        match count_at(b, 5, MAX_PLAN_ROWS as int) {
            Err(m) => Err(m),
            Ok((nr, o1)) => match rows_acc(b, o1, nr as nat, seq![]) {
                Err(m) => Err(m),
                Ok((rows, o2)) => match count_at(b, o2, MAX_PLAN_ROWS as int) {
                    Err(m) => Err(m),
                    Ok((np, o3)) => match places_acc(b, o3, np as nat, seq![]) {
                        Err(m) => Err(m),
                        Ok((pls, o4)) => if !places_ascend(b, pls) {
                            Err("unsorted Places"@)
                        } else {
                            match count_at(b, o4, MAX_PLAN_FILES as int) {
                                Err(m) => Err(m),
                                Ok((ns, o5)) => match skus_acc(b, o5, ns as nat, seq![]) {
                                    Err(m) => Err(m),
                                    Ok((sk, o6)) => if !ids_ascend(sk) {
                                        Err("unsorted SKUs"@)
                                    } else {
                                        match count_at(b, o6, MAX_PLAN_FILES as int) {
                                            Err(m) => Err(m),
                                            Ok((nf, o7)) => match files_acc(b, o7, nf as nat, seq![]) {
                                                Err(m) => Err(m),
                                                Ok((fs, o8)) => if o8 != b.len() {
                                                    Err("trailing plan bytes"@)
                                                } else {
                                                    Ok((rows, pls, sk, fs))
                                                },
                                            },
                                        }
                                    },
                                },
                            }
                        },
                    },
                },
            },
        }
    }
}

/// A decoded row is the row read.
pub open spec fn row_is(r: PackedRow, m: (Seq<char>, int, int)) -> bool {
    r.table@ == m.0 && r.stable_id == m.1 && r.storage_index == m.2
}

/// A decoded Place bundle is the bundle at offset `o`.
pub open spec fn place_is(p: PlaceBundlePlan, b: Seq<u8>, o: int) -> bool {
    &&& p.place.spec_raw() == le128(b, o)
    &&& p.aabb.min.x == signed32(le32(b, o + 16))
    &&& p.aabb.min.y == signed32(le32(b, o + 20))
    &&& p.aabb.min.z == signed32(le32(b, o + 24))
    &&& p.aabb.max.x == signed32(le32(b, o + 28))
    &&& p.aabb.max.y == signed32(le32(b, o + 32))
    &&& p.aabb.max.z == signed32(le32(b, o + 36))
    &&& p.access_group == le16(b, o + 40)
    &&& p.assets@.len() == le32(b, o + 42)
    &&& forall|i: int| 0 <= i < p.assets@.len() ==> (#[trigger] p.assets@[i]).0@ == blob_at(b, o + 46, i)
}

/// A decoded plan is the plan read from `b`, with nothing stripped and the
/// digest of `b` as its hash.
pub open spec fn plan_is(p: WholeTitlePlan, b: Seq<u8>, m: PlanModel) -> bool {
    &&& p.tables@.len() == m.0.len()
    &&& forall|i: int| 0 <= i < m.0.len() ==> row_is(#[trigger] p.tables@[i], m.0[i])
    &&& p.places@.len() == m.1.len()
    &&& forall|i: int| 0 <= i < m.1.len() ==> place_is(#[trigger] p.places@[i], b, m.1[i])
    &&& p.skus@.len() == m.2.len()
    &&& forall|i: int|
        0 <= i < m.2.len() ==> (#[trigger] p.skus@[i]).sku@ == m.2[i].0 && p.skus@[i].permutations@ == m.2[i].1
    &&& p.runtime_files@.len() == m.3.len()
    &&& forall|i: int|
        0 <= i < m.3.len() ==> (#[trigger] p.runtime_files@[i]).0@ == m.3[i].0 && p.runtime_files@[i].1@ == m.3[i].1
    &&& p.stripped_paths@.len() == 0
    &&& p.hash.0@ == blake3_digest(b)
}

fn plan_error(m: &str) -> (e: CompileError)
    ensures
        e matches CompileError::Optimization(t) && t@ == m@,
{
    CompileError::Optimization(text(m))
}

fn take_count(b: &[u8], o: usize, cap: u32) -> (r: Result<(usize, usize), CompileError>)
    requires
        o <= b@.len(),
    ensures
        match count_at(b@, o as int, cap as int) {
            Err(m) => r matches Err(CompileError::Optimization(t)) && t@ == m,
            Ok((n, o1)) => r == Ok::<(usize, usize), CompileError>((n as usize, o1 as usize)),
        },
{
    if b.len() - o < 4 {
        return Err(plan_error("truncated plan"));
    }
    let n = read_u32(b, o);
    if n > cap {
        return Err(plan_error("plan count cap"));
    }
    Ok((n as usize, o + 4))
}

fn take_str(b: &[u8], o: usize) -> (r: Result<(String, usize), CompileError>)
    requires
        o <= b@.len(),
    ensures
        match str_at(b@, o as int) {
            Err(m) => r matches Err(CompileError::Optimization(t)) && t@ == m,
            Ok((s, o1)) => r matches Ok((t, o2)) && t@ == s && o2 == o1,
        },
{
    let (n, o1) = match take_count(b, o, 65536) {
        Err(e) => return Err(e),
        Ok(v) => v,
    };
    if b.len() - o1 < n {
        return Err(plan_error("truncated plan"));
    }
    let bytes = vstd::slice::slice_subrange(b, o1, o1 + n);
    match utf8_text(bytes) {
        None => Err(plan_error("plan utf8")),
        Some(s) => Ok((text(s), o1 + n)),
    }
}

fn table_static(t: &str) -> (r: Option<&'static str>)
    ensures
        r is Some <==> table_name_ok(t@),
        r matches Some(s) ==> s@ == t@,
{
    proof {
        reveal_strlit("law");
        reveal_strlit("affordance");
        reveal_strlit("rite");
        reveal_strlit("predicate");
    }
    if crate::diag::str_eq(t, "law") {
        Some("law")
    } else if crate::diag::str_eq(t, "affordance") {
        Some("affordance")
    } else if crate::diag::str_eq(t, "rite") {
        Some("rite")
    } else if crate::diag::str_eq(t, "predicate") {
        Some("predicate")
    } else {
        None
    }
}

fn read_rows(b: &[u8], o: usize, n: usize) -> (r: Result<(Vec<PackedRow>, usize), CompileError>)
    requires
        o <= b@.len(),
    ensures
        match rows_acc(b@, o as int, n as nat, seq![]) {
            Err(m) => r matches Err(CompileError::Optimization(t)) && t@ == m,
            Ok((rows, o2)) => r matches Ok((v, e)) && e == o2 && e <= b@.len() && v@.len() == rows.len() && forall|i: int|
                0 <= i < rows.len() ==> row_is(#[trigger] v@[i], rows[i]),
        },
{
    let mut v: Vec<PackedRow> = Vec::new();
    let ghost mut acc: Seq<(Seq<char>, int, int)> = seq![];
    let mut off = o;
    let mut i: usize = 0;
    while i < n
        invariant
            i <= n,
            off <= b@.len(),
            rows_acc(b@, o as int, n as nat, seq![]) == rows_acc(b@, off as int, (n - i) as nat, acc),
            v@.len() == acc.len(),
            forall|j: int| 0 <= j < acc.len() ==> row_is(#[trigger] v@[j], acc[j]),
        decreases n - i,
    {
        let (t, o1) = match take_str(b, off) {
            Err(e) => return Err(e),
            Ok(x) => x,
        };
        let table = match table_static(t.as_str()) {
            None => return Err(plan_error("unknown table")),
            Some(s) => s,
        };
        if b.len() - o1 < 4 {
            return Err(plan_error("truncated plan"));
        }
        let stable_id = read_u16(b, o1);
        let storage_index = read_u16(b, o1 + 2);
        proof {
            acc = acc.push((t@, stable_id as int, storage_index as int));
        }
        v.push(PackedRow { table, stable_id, storage_index });
        off = o1 + 4;
        i = i + 1;
    }
    Ok((v, off))
}

fn read_u128(b: &[u8], o: usize) -> (r: u128)
    requires
        o + 16 <= b@.len(),
    ensures
        r == le128(b@, o as int),
{
    let len = b.len();
    assert(o + 16 <= len);
    let a = read_u32(b, o) as u128;
    let c = read_u32(b, o + 4) as u128;
    let d = read_u32(b, o + 8) as u128;
    let e = read_u32(b, o + 12) as u128;
    assert(a + 0x1_0000_0000 * c + 0x1_0000_0000_0000_0000 * d + 0x1_0000_0000_0000_0000_0000_0000 * e
        <= u128::MAX) by (nonlinear_arith)
        requires
            a < 0x1_0000_0000,
            c < 0x1_0000_0000,
            d < 0x1_0000_0000,
            e < 0x1_0000_0000,
    ;
    a + 0x1_0000_0000 * c + 0x1_0000_0000_0000_0000 * d + 0x1_0000_0000_0000_0000_0000_0000 * e
}

fn read_place(b: &[u8], o: usize) -> (r: Result<(PlaceBundlePlan, usize), CompileError>)
    requires
        o <= b@.len(),
    ensures
        match place_at(b@, o as int) {
            Err(m) => r matches Err(CompileError::Optimization(t)) && t@ == m,
            Ok(o2) => r matches Ok((p, e)) && e == o2 && place_is(p, b@, o as int),
        },
{
    if b.len() - o < 42 {
        return Err(plan_error("truncated plan"));
    }
    let raw = read_u128(b, o);
    let min = IVec3 { x: read_i32(b, o + 16), y: read_i32(b, o + 20), z: read_i32(b, o + 24) };
    let max = IVec3 { x: read_i32(b, o + 28), y: read_i32(b, o + 32), z: read_i32(b, o + 36) };
    let access_group = read_u16(b, o + 40);
    let (n, o1) = match take_count(b, o + 42, 16384) {
        Err(e) => return Err(e),
        Ok(v) => v,
    };
    if (b.len() - o1) / 32 < n {
        return Err(plan_error("truncated plan"));
    }
    let len = b.len();
    let mut assets: Vec<BlobId> = Vec::new();
    let mut i: usize = 0;
    while i < n
        invariant
            len == b@.len(),
            i <= n <= 16384,
            o1 == o + 46,
            o1 + 32 * n <= b@.len(),
            assets@.len() == i,
            forall|j: int| 0 <= j < i ==> (#[trigger] assets@[j]).0@ == blob_at(b@, o1 as int, j),
        decreases n - i,
    {
        let id = read_array32(b, o1 + 32 * i);
        assets.push(BlobId(id));
        i = i + 1;
    }
    let mut k: usize = 1;
    while k < n
        invariant
            1 <= k,
            n <= 16384,
            o + 42 <= b@.len(),
            o1 == o + 46,
            o1 + 32 * n <= b@.len(),
            count_at(b@, o + 42, 16384) == Ok::<(int, int), Seq<char>>((n as int, o1 as int)),
            assets@.len() == n,
            forall|j: int| 0 <= j < n ==> (#[trigger] assets@[j]).0@ == blob_at(b@, o1 as int, j),
            forall|j: int| 0 <= j < k - 1 && j < n - 1 ==> bytes_lt(#[trigger] blob_at(b@, o1 as int, j), blob_at(b@, o1 as int, j + 1)),
        decreases n - k,
    {
        if !bytes_less(&assets[k - 1].0, &assets[k].0) {
            proof {
                assert(assets@[k - 1].0@ == blob_at(b@, o1 as int, k - 1));
                assert(assets@[k as int].0@ == blob_at(b@, o1 as int, k as int));
                assert(!blobs_ascend(b@, o1 as int, n as int));
            }
            return Err(plan_error("unsorted Place assets"));
        }
        k = k + 1;
    }
    let p = PlaceBundlePlan { place: Sigil::from_raw(raw), aabb: AabbMm { min, max }, assets, access_group };
    Ok((p, o1 + 32 * n))
}

fn read_places(b: &[u8], o: usize, n: usize) -> (r: Result<(Vec<PlaceBundlePlan>, usize), CompileError>)
    requires
        o <= b@.len(),
    ensures
        match places_acc(b@, o as int, n as nat, seq![]) {
            Err(m) => r matches Err(CompileError::Optimization(t)) && t@ == m,
            Ok((offs, o2)) => r matches Ok((v, e)) && e == o2 && e <= b@.len() && v@.len() == offs.len() && forall|i: int|
                0 <= i < offs.len() ==> place_is(#[trigger] v@[i], b@, offs[i]),
        },
{
    let mut v: Vec<PlaceBundlePlan> = Vec::new();
    let ghost mut acc: Seq<int> = seq![];
    let mut off = o;
    let mut i: usize = 0;
    while i < n
        invariant
            i <= n,
            off <= b@.len(),
            places_acc(b@, o as int, n as nat, seq![]) == places_acc(b@, off as int, (n - i) as nat, acc),
            v@.len() == acc.len(),
            forall|j: int| 0 <= j < acc.len() ==> place_is(#[trigger] v@[j], b@, acc[j]),
        decreases n - i,
    {
        let (p, o2) = match read_place(b, off) {
            Err(e) => return Err(e),
            Ok(x) => x,
        };
        proof {
            acc = acc.push(off as int);
        }
        v.push(p);
        off = o2;
        i = i + 1;
    }
    Ok((v, off))
}

fn places_in_order(v: &Vec<PlaceBundlePlan>, Ghost(b): Ghost<Seq<u8>>, Ghost(offs): Ghost<Seq<int>>) -> (r: bool)
    requires
        v@.len() == offs.len(),
        forall|i: int| 0 <= i < offs.len() ==> place_is(#[trigger] v@[i], b, offs[i]),
    ensures
        r == places_ascend(b, offs),
{
    let mut k: usize = 1;
    while k < v.len()
        invariant
            1 <= k,
            v@.len() == offs.len(),
            forall|i: int| 0 <= i < offs.len() ==> place_is(#[trigger] v@[i], b, offs[i]),
            forall|i: int|
                0 <= i < k - 1 && i < offs.len() - 1 ==> {
                    let g0 = le16(b, #[trigger] offs[i] + 40);
                    let g1 = le16(b, offs[i + 1] + 40);
                    g0 < g1 || (g0 == g1 && le128(b, offs[i]) < le128(b, offs[i + 1]))
                },
        decreases v@.len() - k,
    {
        let a = &v[k - 1];
        let c = &v[k];
        proof {
            assert(place_is(v@[k - 1], b, offs[k - 1]));
            assert(place_is(v@[k as int], b, offs[k as int]));
        }
        let before = a.access_group < c.access_group || (a.access_group == c.access_group && a.place.raw()
            < c.place.raw());
        if !before {
            proof {
                let i = k - 1;
                assert(!(le16(b, offs[i] + 40) < le16(b, offs[i + 1] + 40) || (le16(b, offs[i] + 40) == le16(b, offs[i + 1] + 40) && le128(b, offs[i]) < le128(b, offs[i + 1]))));
            }
            return false;
        }
        k = k + 1;
    }
    true
}

fn read_sku(b: &[u8], o: usize) -> (r: Result<(SkuBundlePlan, usize), CompileError>)
    requires
        o <= b@.len(),
    ensures
        match sku_at(b@, o as int) {
            Err(m) => r matches Err(CompileError::Optimization(t)) && t@ == m,
            Ok((s, o2)) => r matches Ok((v, e)) && e == o2 && e <= b@.len() && v.sku@ == s.0 && v.permutations@ == s.1,
        },
{
    let (t, o1) = match take_str(b, o) {
        Err(e) => return Err(e),
        Ok(x) => x,
    };
    let (n, o2) = match take_count(b, o1, 16) {
        Err(e) => return Err(e),
        Ok(x) => x,
    };
    if b.len() - o2 < n {
        return Err(plan_error("truncated plan"));
    }
    let len = b.len();
    let mut perms: Vec<u8> = Vec::new();
    let mut i: usize = 0;
    while i < n
        invariant
            len == b@.len(),
            i <= n,
            o2 + n <= b@.len(),
            perms@ == b@.subrange(o2 as int, o2 + i),
        decreases n - i,
    {
        perms.push(b[o2 + i]);
        i = i + 1;
        assert(perms@ =~= b@.subrange(o2 as int, o2 + i));
    }
    let mut k: usize = 1;
    while k < n
        invariant
            1 <= k,
            o2 + n <= b@.len(),
            str_at(b@, o as int) == Ok::<(Seq<char>, int), Seq<char>>((t@, o1 as int)),
            count_at(b@, o1 as int, 16) == Ok::<(int, int), Seq<char>>((n as int, o2 as int)),
            perms@ == b@.subrange(o2 as int, o2 + n),
            perms@.len() == n,
            forall|j: int| 0 <= j < k - 1 && j < n - 1 ==> #[trigger] perms@[j] < perms@[j + 1],
        decreases n - k,
    {
        if perms[k - 1] >= perms[k] {
            proof {
                assert(!(perms@[k - 1] < perms@[(k - 1) + 1]));
                assert(!bytes_ascend(b@.subrange(o2 as int, o2 + n)));
            }
            return Err(plan_error("unsorted permutations"));
        }
        k = k + 1;
    }
    Ok((SkuBundlePlan { sku: Name::of(t.as_str()), permutations: perms }, o2 + n))
}

fn read_skus(b: &[u8], o: usize, n: usize) -> (r: Result<(Vec<SkuBundlePlan>, usize), CompileError>)
    requires
        o <= b@.len(),
    ensures
        match skus_acc(b@, o as int, n as nat, seq![]) {
            Err(m) => r matches Err(CompileError::Optimization(t)) && t@ == m,
            Ok((sk, o2)) => r matches Ok((v, e)) && e == o2 && e <= b@.len() && v@.len() == sk.len() && forall|i: int|
                0 <= i < sk.len() ==> (#[trigger] v@[i]).sku@ == sk[i].0 && v@[i].permutations@ == sk[i].1,
        },
{
    let mut v: Vec<SkuBundlePlan> = Vec::new();
    let ghost mut acc: Seq<(Seq<char>, Seq<u8>)> = seq![];
    let mut off = o;
    let mut i: usize = 0;
    while i < n
        invariant
            i <= n,
            off <= b@.len(),
            skus_acc(b@, o as int, n as nat, seq![]) == skus_acc(b@, off as int, (n - i) as nat, acc),
            v@.len() == acc.len(),
            forall|j: int| 0 <= j < acc.len() ==> (#[trigger] v@[j]).sku@ == acc[j].0 && v@[j].permutations@ == acc[j].1,
        decreases n - i,
    {
        let (s, o2) = match read_sku(b, off) {
            Err(e) => return Err(e),
            Ok(x) => x,
        };
        proof {
            acc = acc.push((s.sku@, s.permutations@));
        }
        v.push(s);
        off = o2;
        i = i + 1;
    }
    Ok((v, off))
}

fn skus_in_order(v: &Vec<SkuBundlePlan>, Ghost(sk): Ghost<Seq<(Seq<char>, Seq<u8>)>>) -> (r: bool)
    requires
        v@.len() == sk.len(),
        forall|i: int| 0 <= i < sk.len() ==> (#[trigger] v@[i]).sku@ == sk[i].0,
    ensures
        r == ids_ascend(sk),
{
    let mut k: usize = 1;
    while k < v.len()
        invariant
            1 <= k,
            v@.len() == sk.len(),
            forall|i: int| 0 <= i < sk.len() ==> (#[trigger] v@[i]).sku@ == sk[i].0,
            forall|i: int| 0 <= i < k - 1 && i < sk.len() - 1 ==> text_before(#[trigger] sk[i].0, sk[i + 1].0),
        decreases v@.len() - k,
    {
        let a = text(v[k - 1].sku.as_str());
        let c = text(v[k].sku.as_str());
        proof {
            assert(v@[k - 1].sku@ == sk[k - 1].0);
            assert(v@[k as int].sku@ == sk[k as int].0);
        }
        if !string_lt(&a, &c) {
            proof {
                assert(!text_before(sk[k - 1].0, sk[(k - 1) + 1].0));
            }
            return false;
        }
        k = k + 1;
    }
    true
}

proof fn lemma_lex_irreflexive(a: Seq<u8>)
    ensures
        !lex_lt(a, a),
    decreases a.len(),
{
    if a.len() > 0 {
        lemma_lex_irreflexive(a.drop_first());
    }
}

proof fn lemma_lex_total(a: Seq<u8>, b: Seq<u8>)
    requires
        a != b,
    ensures
        lex_lt(a, b) || lex_lt(b, a),
    decreases a.len(),
{
    if a.len() == 0 && b.len() == 0 {
        assert(a =~= b);
    } else if a.len() > 0 && b.len() > 0 && a[0] == b[0] {
        if a.drop_first() =~= b.drop_first() {
            assert(a =~= seq![a[0]] + a.drop_first());
            assert(b =~= seq![b[0]] + b.drop_first());
            assert(a =~= b);
        } else {
            lemma_lex_total(a.drop_first(), b.drop_first());
        }
    }
}

proof fn lemma_lex_transitive(a: Seq<u8>, b: Seq<u8>, c: Seq<u8>)
    requires
        lex_lt(a, b),
        lex_lt(b, c),
    ensures
        lex_lt(a, c),
    decreases a.len(),
{
    if a.len() > 0 && b.len() > 0 && c.len() > 0 && a[0] == b[0] && b[0] == c[0] {
        lemma_lex_transitive(a.drop_first(), b.drop_first(), c.drop_first());
    }
}

proof fn lemma_text_total(a: Seq<char>, b: Seq<char>)
    requires
        a != b,
    ensures
        text_before(a, b) || text_before(b, a),
{
    vstd::utf8::encode_utf8_decode_utf8(a);
    vstd::utf8::encode_utf8_decode_utf8(b);
    lemma_lex_total(utf8(a), utf8(b));
}

/// Paths strictly ascend.
pub open spec fn paths_ascend(s: Seq<(Seq<char>, Seq<u8>)>) -> bool {
    forall|i: int, j: int| 0 <= i < j < s.len() ==> text_before(#[trigger] s[i].0, #[trigger] s[j].0)
}

proof fn lemma_insert_members(s: Seq<(Seq<char>, Seq<u8>)>, x: (Seq<char>, Seq<u8>), k: int)
    requires
        0 <= k < insert_file(s, x).len(),
    ensures
        insert_file(s, x).len() == s.len() + 1,
        insert_file(s, x)[k] == x || exists|j: int| 0 <= j < s.len() && s[j] == insert_file(s, x)[k],
    decreases s.len(),
{
    if s.len() > 0 && !text_before(x.0, s[0].0) {
        let t = s.drop_first();
        if k > 0 {
            lemma_insert_members(t, x, k - 1);
            if insert_file(t, x)[k - 1] != x {
                let j = choose|j: int| 0 <= j < t.len() && t[j] == insert_file(t, x)[k - 1];
                assert(s[j + 1] == insert_file(s, x)[k]);
            }
        } else {
            assert(s[0] == insert_file(s, x)[k]);
        }
        if k == 0 && t.len() > 0 {
            lemma_insert_members(t, x, 0);
        } else if k == 0 {
        }
    } else if s.len() > 0 {
        if k > 0 {
            assert(s[k - 1] == insert_file(s, x)[k]);
        }
    }
}

proof fn lemma_insert_len(s: Seq<(Seq<char>, Seq<u8>)>, x: (Seq<char>, Seq<u8>))
    ensures
        insert_file(s, x).len() == s.len() + 1,
    decreases s.len(),
{
    if s.len() > 0 && !text_before(x.0, s[0].0) {
        lemma_insert_len(s.drop_first(), x);
    }
}

proof fn lemma_insert_sorted(s: Seq<(Seq<char>, Seq<u8>)>, x: (Seq<char>, Seq<u8>))
    requires
        paths_ascend(s),
        !has_path(s, x.0),
    ensures
        paths_ascend(insert_file(s, x)),
    decreases s.len(),
{
    lemma_insert_len(s, x);
    if s.len() == 0 {
    } else if text_before(x.0, s[0].0) {
        let r = insert_file(s, x);
        assert(r =~= seq![x] + s);
        assert forall|i: int, j: int| 0 <= i < j < r.len() implies text_before(#[trigger] r[i].0, #[trigger] r[j].0) by {
            if i == 0 {
                if j > 1 {
                    lemma_lex_transitive(utf8(x.0), utf8(s[0].0), utf8(s[j - 1].0));
                }
            }
        }
    } else {
        let t = s.drop_first();
        assert(!has_path(t, x.0)) by {
            if has_path(t, x.0) {
                let j = choose|j: int| 0 <= j < t.len() && (#[trigger] t[j]).0 == x.0;
                assert(s[j + 1].0 == x.0);
            }
        }
        assert(paths_ascend(t)) by {
            assert forall|i: int, j: int| 0 <= i < j < t.len() implies text_before(#[trigger] t[i].0, #[trigger] t[j].0) by {
                assert(t[i] == s[i + 1] && t[j] == s[j + 1]);
            }
        }
        lemma_insert_sorted(t, x);
        let it = insert_file(t, x);
        let r = insert_file(s, x);
        assert(r =~= seq![s[0]] + it);
        assert(s[0].0 != x.0) by {
            assert(s[0] == s[0]);
            if s[0].0 == x.0 {
                assert(has_path(s, x.0));
            }
        }
        lemma_text_total(s[0].0, x.0);
        assert forall|i: int, j: int| 0 <= i < j < r.len() implies text_before(#[trigger] r[i].0, #[trigger] r[j].0) by {
            if i == 0 {
                lemma_insert_members(t, x, j - 1);
                if it[j - 1] != x {
                    let q = choose|q: int| 0 <= q < t.len() && t[q] == it[j - 1];
                    assert(t[q] == s[q + 1]);
                }
            }
        }
    }
}

proof fn lemma_files_acc_sorted(b: Seq<u8>, o: int, k: nat, acc: Seq<(Seq<char>, Seq<u8>)>)
    requires
        paths_ascend(acc),
        files_acc(b, o, k, acc) is Ok,
    ensures
        paths_ascend(files_acc(b, o, k, acc)->Ok_0.0),
    decreases k,
{
    if k > 0 {
        let (f, o2) = file_at(b, o, acc)->Ok_0;
        lemma_insert_sorted(acc, f);
        lemma_files_acc_sorted(b, o2, (k - 1) as nat, insert_file(acc, f));
    }
}

/// The order a plan keeps: Place bundles by access group then identity,
/// each bundle's assets, SKU ids, each SKU's permutation ids, and runtime
/// file paths, all strictly ascending.
pub open spec fn plan_sorted(p: WholeTitlePlan) -> bool {
    &&& forall|i: int|
        0 <= i < p.places@.len() - 1 ==> {
            let a = #[trigger] p.places@[i];
            let c = p.places@[i + 1];
            a.access_group < c.access_group || (a.access_group == c.access_group && a.place.spec_raw()
                < c.place.spec_raw())
        }
    &&& forall|i: int, k: int|
        0 <= i < p.places@.len() && 0 <= k < p.places@[i].assets@.len() - 1 ==> bytes_lt(
            (#[trigger] p.places@[i].assets@[k]).0@,
            p.places@[i].assets@[k + 1].0@,
        )
    &&& forall|i: int| 0 <= i < p.skus@.len() - 1 ==> text_before((#[trigger] p.skus@[i]).sku@, p.skus@[i + 1].sku@)
    &&& forall|i: int| 0 <= i < p.skus@.len() ==> bytes_ascend((#[trigger] p.skus@[i]).permutations@)
    &&& forall|i: int, j: int|
        0 <= i < j < p.runtime_files@.len() ==> text_before((#[trigger] p.runtime_files@[i]).0@, (#[trigger] p.runtime_files@[j]).0@)
}

proof fn lemma_places_acc_ascend(b: Seq<u8>, o: int, k: nat, acc: Seq<int>)
    requires
        forall|i: int| 0 <= i < acc.len() ==> blobs_ascend(b, #[trigger] acc[i] + 46, le32(b, acc[i] + 42)),
        places_acc(b, o, k, acc) is Ok,
    ensures
        forall|i: int|
            0 <= i < places_acc(b, o, k, acc)->Ok_0.0.len() ==> blobs_ascend(
                b,
                #[trigger] places_acc(b, o, k, acc)->Ok_0.0[i] + 46,
                le32(b, places_acc(b, o, k, acc)->Ok_0.0[i] + 42),
            ),
    decreases k,
{
    if k > 0 {
        let o2 = place_at(b, o)->Ok_0;
        let acc2 = acc.push(o);
        assert forall|i: int| 0 <= i < acc2.len() implies blobs_ascend(b, #[trigger] acc2[i] + 46, le32(b, acc2[i] + 42)) by {
            if i < acc.len() {
                assert(acc2[i] == acc[i]);
            }
        }
        lemma_places_acc_ascend(b, o2, (k - 1) as nat, acc2);
    }
}

proof fn lemma_skus_acc_ascend(b: Seq<u8>, o: int, k: nat, acc: Seq<(Seq<char>, Seq<u8>)>)
    requires
        forall|i: int| 0 <= i < acc.len() ==> bytes_ascend(#[trigger] acc[i].1),
        skus_acc(b, o, k, acc) is Ok,
    ensures
        forall|i: int|
            0 <= i < skus_acc(b, o, k, acc)->Ok_0.0.len() ==> bytes_ascend(#[trigger] skus_acc(b, o, k, acc)->Ok_0.0[i].1),
    decreases k,
{
    if k > 0 {
        let (sk, o2) = sku_at(b, o)->Ok_0;
        let acc2 = acc.push(sk);
        assert forall|i: int| 0 <= i < acc2.len() implies bytes_ascend(#[trigger] acc2[i].1) by {
            if i < acc.len() {
                assert(acc2[i] == acc[i]);
            }
        }
        lemma_skus_acc_ascend(b, o2, (k - 1) as nat, acc2);
    }
}

/// Paths and contents of runtime files.
pub open spec fn files_view(v: Seq<(String, Vec<u8>)>) -> Seq<(Seq<char>, Seq<u8>)> {
    v.map_values(|f: (String, Vec<u8>)| (f.0@, f.1@))
}

proof fn lemma_insert_at(s: Seq<(Seq<char>, Seq<u8>)>, x: (Seq<char>, Seq<u8>), p: int)
    requires
        0 <= p <= s.len(),
        forall|j: int| 0 <= j < p ==> !text_before(x.0, #[trigger] s[j].0),
        p < s.len() ==> text_before(x.0, s[p].0),
    ensures
        insert_file(s, x) == s.take(p) + seq![x] + s.skip(p),
    decreases s.len(),
{
    if s.len() == 0 {
        assert(s.take(p) + seq![x] + s.skip(p) =~= seq![x]);
    } else if p == 0 {
        assert(s.take(p) + seq![x] + s.skip(p) =~= seq![x] + s);
    } else {
        let t = s.drop_first();
        assert forall|j: int| 0 <= j < p - 1 implies !text_before(x.0, #[trigger] t[j].0) by {
            assert(t[j] == s[j + 1]);
        }
        lemma_insert_at(t, x, p - 1);
        assert(s.take(p) + seq![x] + s.skip(p) =~= seq![s[0]] + (t.take(p - 1) + seq![x] + t.skip(p - 1)));
    }
}

fn runtime_aux_exec(path: &str) -> (r: bool)
    ensures
        r == runtime_aux(path@),
{
    let raw = chars_of(path);
    let mut n: Vec<char> = Vec::new();
    let mut i: usize = 0;
    while i < raw.len()
        invariant
            i <= raw@.len(),
            n@ == normalize_slashes(raw@.take(i as int)),
        decreases raw.len() - i,
    {
        let c = raw[i];
        n.push(if c == '\\' { '/' } else { c });
        assert(raw@.take(i + 1) =~= raw@.take(i as int).push(c));
        assert(normalize_slashes(raw@.take(i + 1)) =~= normalize_slashes(raw@.take(i as int)).push(
            if c == '\\' { '/' } else { c },
        ));
        i += 1;
    }
    assert(raw@.take(raw@.len() as int) =~= raw@);
    let a = chars_of("runtime/");
    let b = chars_of("places/");
    let c = chars_of("cas/");
    let d = chars_of("shaders/");
    let e = chars_of("locales/");
    let f = chars_of("audio/");
    occurs_at_exec(&n, &a, 0) || occurs_at_exec(&n, &b, 0) || occurs_at_exec(&n, &c, 0) || occurs_at_exec(&n, &d, 0)
        || occurs_at_exec(&n, &e, 0) || occurs_at_exec(&n, &f, 0)
}

fn copy_range(b: &[u8], o: usize, n: usize) -> (r: Vec<u8>)
    requires
        o + n <= b@.len(),
    ensures
        r@ == b@.subrange(o as int, o + n),
{
    let len = b.len();
    let mut v: Vec<u8> = Vec::new();
    let mut i: usize = 0;
    while i < n
        invariant
            len == b@.len(),
            o + n <= b@.len(),
            i <= n,
            v@ == b@.subrange(o as int, o + i),
        decreases n - i,
    {
        v.push(b[o + i]);
        i = i + 1;
        assert(v@ =~= b@.subrange(o as int, o + i));
    }
    v
}

/// Where a path goes among path-ordered files, or `None` when it is present.
fn file_slot(files: &Vec<(String, Vec<u8>)>, path: &String) -> (r: Option<usize>)
    ensures
        r is None <==> has_path(files_view(files@), path@),
        r matches Some(p) ==> p <= files@.len() && (forall|j: int|
            0 <= j < p ==> !text_before(path@, #[trigger] files_view(files@)[j].0)) && (p < files@.len()
            ==> text_before(path@, files_view(files@)[p as int].0)),
{
    let ghost fv = files_view(files@);
    let mut i: usize = 0;
    while i < files.len()
        invariant
            fv == files_view(files@),
            i <= files@.len(),
            forall|j: int| 0 <= j < i ==> (#[trigger] fv[j]).0 != path@,
        decreases files.len() - i,
    {
        if crate::diag::str_eq(files[i].0.as_str(), path.as_str()) {
            assert(fv[i as int].0 == path@);
            return None;
        }
        i = i + 1;
    }
    let mut p: usize = 0;
    while p < files.len()
        invariant
            fv == files_view(files@),
            p <= files@.len(),
            forall|j: int| 0 <= j < p ==> !text_before(path@, #[trigger] fv[j].0),
            forall|j: int| 0 <= j < files@.len() ==> (#[trigger] fv[j]).0 != path@,
        decreases files.len() - p,
    {
        if string_lt(path, &files[p].0) {
            return Some(p);
        }
        p = p + 1;
    }
    Some(p)
}

fn read_files(b: &[u8], o: usize, n: usize) -> (r: Result<(Vec<(String, Vec<u8>)>, usize), CompileError>)
    requires
        o <= b@.len(),
    ensures
        match files_acc(b@, o as int, n as nat, seq![]) {
            Err(m) => r matches Err(CompileError::Optimization(t)) && t@ == m,
            Ok((fs, o2)) => r matches Ok((v, e)) && e == o2 && e <= b@.len() && files_view(v@) == fs,
        },
{
    let mut v: Vec<(String, Vec<u8>)> = Vec::new();
    let mut off = o;
    let mut i: usize = 0;
    assert(files_view(v@) =~= seq![]);
    while i < n
        invariant
            i <= n,
            off <= b@.len(),
            files_acc(b@, o as int, n as nat, seq![]) == files_acc(b@, off as int, (n - i) as nat, files_view(v@)),
        decreases n - i,
    {
        let (path, o1) = match take_str(b, off) {
            Err(e) => return Err(e),
            Ok(x) => x,
        };
        proof {
            reveal(path_safe);
        }
        if !runtime_aux_exec(path.as_str()) || check_ship_allowlist(path.as_str()).is_err() {
            return Err(CompileError::Optimization(concat("unsafe runtime path ", path.as_str())));
        }
        let (len, o2) = match take_count(b, o1, 536_870_912) {
            Err(e) => return Err(e),
            Ok(x) => x,
        };
        if b.len() - o2 < len {
            return Err(plan_error("truncated plan"));
        }
        let contents = copy_range(b, o2, len);
        let slot = match file_slot(&v, &path) {
            None => return Err(plan_error("duplicate runtime path")),
            Some(p) => p,
        };
        let ghost old_v = files_view(v@);
        let ghost x = (path@, contents@);
        proof {
            lemma_insert_at(old_v, x, slot as int);
        }
        v.insert(slot, (path, contents));
        proof {
            assert(files_view(v@) =~= old_v.take(slot as int) + seq![x] + old_v.skip(slot as int));
        }
        off = o2 + len;
        i = i + 1;
    }
    Ok((v, off))
}

/// Decode and validate a model-free whole-title runtime plan. Whether each
/// bundle's identity names a Place is not checked here: the identity's kind
/// layout belongs to the locus crate.
pub fn decode_whole_title_plan(bytes: &[u8]) -> (r: Result<WholeTitlePlan, CompileError>)
    ensures
        match plan_read(bytes@) {
            Err(m) => r matches Err(CompileError::Optimization(t)) && t@ == m,
            Ok(m) => r matches Ok(p) && plan_is(p, bytes@, m),
        },
        r matches Ok(p) ==> plan_sorted(p),
{
    if bytes.len() < 4 {
        return Err(plan_error("truncated plan"));
    }
    if !(bytes[0] == 75 && bytes[1] == 79 && bytes[2] == 80 && bytes[3] == 84) {
        proof {
            if bytes@.take(4) == seq![75u8, 79, 80, 84] {
                assert(bytes@.take(4)[0] == bytes@[0]);
                assert(bytes@.take(4)[1] == bytes@[1]);
                assert(bytes@.take(4)[2] == bytes@[2]);
                assert(bytes@.take(4)[3] == bytes@[3]);
            }
        }
        return Err(plan_error("plan magic/version"));
    }
    assert(bytes@.take(4) =~= seq![75u8, 79, 80, 84]);
    if bytes.len() < 5 {
        return Err(plan_error("truncated plan"));
    }
    if bytes[4] != 1 {
        return Err(plan_error("plan magic/version"));
    }
    let (nr, o1) = match take_count(bytes, 5, 65535) {
        Err(e) => return Err(e),
        Ok(x) => x,
    };
    let (tables, o2) = match read_rows(bytes, o1, nr) {
        Err(e) => return Err(e),
        Ok(x) => x,
    };
    let (np, o3) = match take_count(bytes, o2, 65535) {
        Err(e) => return Err(e),
        Ok(x) => x,
    };
    let (places, o4) = match read_places(bytes, o3, np) {
        Err(e) => return Err(e),
        Ok(x) => x,
    };
    let ghost pls = places_acc(bytes@, o3 as int, np as nat, seq![])->Ok_0.0;
    if !places_in_order(&places, Ghost(bytes@), Ghost(pls)) {
        return Err(plan_error("unsorted Places"));
    }
    let (ns, o5) = match take_count(bytes, o4, 16384) {
        Err(e) => return Err(e),
        Ok(x) => x,
    };
    let (skus, o6) = match read_skus(bytes, o5, ns) {
        Err(e) => return Err(e),
        Ok(x) => x,
    };
    let ghost sk = skus_acc(bytes@, o5 as int, ns as nat, seq![])->Ok_0.0;
    if !skus_in_order(&skus, Ghost(sk)) {
        return Err(plan_error("unsorted SKUs"));
    }
    let (nf, o7) = match take_count(bytes, o6, 16384) {
        Err(e) => return Err(e),
        Ok(x) => x,
    };
    let (runtime_files, o8) = match read_files(bytes, o7, nf) {
        Err(e) => return Err(e),
        Ok(x) => x,
    };
    if o8 != bytes.len() {
        return Err(plan_error("trailing plan bytes"));
    }
    let ghost fs = files_acc(bytes@, o7 as int, nf as nat, seq![])->Ok_0.0;
    let p = WholeTitlePlan { tables, places, skus, runtime_files, stripped_paths: Vec::new(), hash: digest_of(bytes) };
    proof {
        lemma_places_acc_ascend(bytes@, o3 as int, np as nat, seq![]);
        lemma_skus_acc_ascend(bytes@, o5 as int, ns as nat, seq![]);
        lemma_files_acc_sorted(bytes@, o7 as int, nf as nat, seq![]);
        assert forall|i: int| 0 <= i < p.places@.len() - 1 implies {
            let a = #[trigger] p.places@[i];
            let c = p.places@[i + 1];
            a.access_group < c.access_group || (a.access_group == c.access_group && a.place.spec_raw()
                < c.place.spec_raw())
        } by {
            assert(place_is(p.places@[i], bytes@, pls[i]));
            assert(place_is(p.places@[i + 1], bytes@, pls[i + 1]));
        }
        assert forall|i: int, k: int|
            0 <= i < p.places@.len() && 0 <= k < p.places@[i].assets@.len() - 1 implies bytes_lt(
            (#[trigger] p.places@[i].assets@[k]).0@,
            p.places@[i].assets@[k + 1].0@,
        ) by {
            assert(place_is(p.places@[i], bytes@, pls[i]));
            assert(blobs_ascend(bytes@, pls[i] + 46, le32(bytes@, pls[i] + 42)));
            assert(bytes_lt(blob_at(bytes@, pls[i] + 46, k), blob_at(bytes@, pls[i] + 46, k + 1)));
        }
        assert forall|i: int| 0 <= i < p.skus@.len() implies bytes_ascend((#[trigger] p.skus@[i]).permutations@) by {
            assert(bytes_ascend(sk[i].1));
        }
        assert forall|i: int, j: int|
            0 <= i < j < p.runtime_files@.len() implies text_before(
            (#[trigger] p.runtime_files@[i]).0@,
            (#[trigger] p.runtime_files@[j]).0@,
        ) by {
            assert(files_view(p.runtime_files@) == fs);
            assert(files_view(p.runtime_files@)[i] == (p.runtime_files@[i].0@, p.runtime_files@[i].1@));
            assert(files_view(p.runtime_files@)[j] == (p.runtime_files@[j].0@, p.runtime_files@[j].1@));
            assert(text_before(fs[i].0, fs[j].0));
        }
        assert forall|i: int| 0 <= i < fs.len() implies (#[trigger] p.runtime_files@[i]).0@ == fs[i].0
            && p.runtime_files@[i].1@ == fs[i].1 by {
            assert(files_view(p.runtime_files@)[i] == fs[i]);
        }
    }
    Ok(p)
}


// ---------------------------------------------------------------------------
// Reading back what the encoder writes.

#[verifier::spinoff_prover]
#[verifier::rlimit(60)]
proof fn lemma_rows_split(s: Seq<PackedRow>)
    requires
        s.len() > 0,
    ensures
        rows_bytes(s) == row_bytes(s[0]) + rows_bytes(s.drop_first()),
    decreases s.len(),
{
    if s.len() == 1 {
        assert(s.drop_first().len() == 0);
        assert(s.drop_last().len() == 0);
        assert(rows_bytes(s.drop_last()) == Seq::<u8>::empty());
        assert(rows_bytes(s.drop_first()) == Seq::<u8>::empty());
        assert(s.last() == s[0]);
        assert(rows_bytes(s) == rows_bytes(s.drop_last()) + row_bytes(s.last()));
        assert(rows_bytes(s) =~= row_bytes(s[0]) + rows_bytes(s.drop_first()));
    } else {
        let a = s.drop_last();
        let t = s.drop_first();
        lemma_rows_split(a);
        assert(a.drop_first() =~= t.drop_last());
        assert(a[0] == s[0]);
        assert(t.last() == s.last());
        assert(rows_bytes(s) == rows_bytes(a) + row_bytes(s.last()));
        assert(rows_bytes(t) == rows_bytes(t.drop_last()) + row_bytes(t.last()));
        assert(rows_bytes(a) == row_bytes(s[0]) + rows_bytes(t.drop_last()));
        assert(rows_bytes(s) =~= row_bytes(s[0]) + rows_bytes(t));
    }
}

#[verifier::spinoff_prover]
#[verifier::rlimit(60)]
proof fn lemma_skus_split(s: Seq<SkuBundlePlan>)
    requires
        s.len() > 0,
    ensures
        skus_bytes(s) == sku_bytes(s[0]) + skus_bytes(s.drop_first()),
    decreases s.len(),
{
    if s.len() == 1 {
        assert(s.drop_first().len() == 0);
        assert(s.drop_last().len() == 0);
        assert(skus_bytes(s.drop_last()) == Seq::<u8>::empty());
        assert(skus_bytes(s.drop_first()) == Seq::<u8>::empty());
        assert(s.last() == s[0]);
        assert(skus_bytes(s) == skus_bytes(s.drop_last()) + sku_bytes(s.last()));
        assert(skus_bytes(s) =~= sku_bytes(s[0]) + skus_bytes(s.drop_first()));
    } else {
        let a = s.drop_last();
        let t = s.drop_first();
        lemma_skus_split(a);
        assert(a.drop_first() =~= t.drop_last());
        assert(a[0] == s[0]);
        assert(t.last() == s.last());
        assert(skus_bytes(s) == skus_bytes(a) + sku_bytes(s.last()));
        assert(skus_bytes(t) == skus_bytes(t.drop_last()) + sku_bytes(t.last()));
        assert(skus_bytes(a) == sku_bytes(s[0]) + skus_bytes(t.drop_last()));
        assert(skus_bytes(s) =~= sku_bytes(s[0]) + skus_bytes(t));
    }
}

#[verifier::spinoff_prover]
#[verifier::rlimit(60)]
proof fn lemma_files_split(s: Seq<(String, Vec<u8>)>)
    requires
        s.len() > 0,
    ensures
        files_bytes(s) == file_bytes(s[0]) + files_bytes(s.drop_first()),
    decreases s.len(),
{
    if s.len() == 1 {
        assert(s.drop_first().len() == 0);
        assert(s.drop_last().len() == 0);
        assert(files_bytes(s.drop_last()) == Seq::<u8>::empty());
        assert(files_bytes(s.drop_first()) == Seq::<u8>::empty());
        assert(s.last() == s[0]);
        assert(files_bytes(s) == files_bytes(s.drop_last()) + file_bytes(s.last()));
        assert(files_bytes(s) =~= file_bytes(s[0]) + files_bytes(s.drop_first()));
    } else {
        let a = s.drop_last();
        let t = s.drop_first();
        lemma_files_split(a);
        assert(a.drop_first() =~= t.drop_last());
        assert(a[0] == s[0]);
        assert(t.last() == s.last());
        assert(files_bytes(s) == files_bytes(a) + file_bytes(s.last()));
        assert(files_bytes(t) == files_bytes(t.drop_last()) + file_bytes(t.last()));
        assert(files_bytes(a) == file_bytes(s[0]) + files_bytes(t.drop_last()));
        assert(files_bytes(s) =~= file_bytes(s[0]) + files_bytes(t));
    }
}

/// A counted field reads back.
proof fn lemma_field_read(pre: Seq<u8>, x: Seq<u8>, post: Seq<u8>, cap: int)
    requires
        x.len() <= cap,
        x.len() < 0x1_0000_0000,
    ensures
        count_at(pre + field(x) + post, pre.len() as int, cap) == Ok::<(int, int), Seq<char>>(
            (x.len() as int, pre.len() + 4int),
        ),
        pre.len() + 4 + x.len() <= (pre + field(x) + post).len(),
        (pre + field(x) + post).subrange(pre.len() + 4int, pre.len() + 4int + x.len()) == x,
{
    let b = pre + field(x) + post;
    assert(b =~= pre + u32_bytes(x.len() as int) + (x + post));
    lemma_le32_of_bytes(x.len() as int, pre, x + post);
    assert(b.subrange(pre.len() + 4int, pre.len() + 4int + x.len()) =~= x);
}

/// A text field reads back as its text.
#[verifier::spinoff_prover]
#[verifier::rlimit(40)]
proof fn lemma_str_read(pre: Seq<u8>, t: Seq<char>, post: Seq<u8>)
    requires
        utf8_of(t).len() <= 65536,
    ensures
        str_at(pre + field(utf8_of(t)) + post, pre.len() as int) == Ok::<(Seq<char>, int), Seq<char>>(
            (t, pre.len() + field(utf8_of(t)).len() as int),
        ),
{
    let x = utf8_of(t);
    let b = pre + field(x) + post;
    let o = pre.len() as int;
    lemma_field_read(pre, x, post, 65536);
    vstd::utf8::encode_utf8_valid_utf8(t);
    vstd::utf8::encode_utf8_decode_utf8(t);
    assert(field(x).len() == 4 + x.len());
    assert(b.subrange(o + 4, o + 4 + x.len()) == x);
    assert(valid_utf8(b.subrange(o + 4, o + 4 + x.len())));
    assert(decode_utf8(b.subrange(o + 4, o + 4 + x.len())) == t);
}


/// What reading a row yields.
pub open spec fn row_model(r: PackedRow) -> (Seq<char>, int, int) {
    (r.table@, r.stable_id as int, r.storage_index as int)
}

#[verifier::spinoff_prover]
#[verifier::rlimit(40)]
proof fn lemma_row_read(pre: Seq<u8>, r: PackedRow, post: Seq<u8>)
    requires
        table_name_ok(r.table@),
        utf8_of(r.table@).len() <= 65536,
    ensures
        row_at(pre + row_bytes(r) + post, pre.len() as int) == Ok::<((Seq<char>, int, int), int), Seq<char>>(
            (row_model(r), pre.len() + row_bytes(r).len() as int),
        ),
{
    let x = utf8_of(r.table@);
    assert(r.table.spec_bytes() == x);
    let f = field(x);
    let b = pre + row_bytes(r) + post;
    let tail = u16_bytes(r.stable_id as int) + u16_bytes(r.storage_index as int) + post;
    assert(b =~= pre + f + tail);
    lemma_str_read(pre, r.table@, tail);
    let o1 = pre.len() + f.len();
    assert(b =~= (pre + f) + u16_bytes(r.stable_id as int) + (u16_bytes(r.storage_index as int) + post));
    lemma_le16_of_bytes(r.stable_id as int, pre + f, u16_bytes(r.storage_index as int) + post);
    assert(b =~= (pre + f + u16_bytes(r.stable_id as int)) + u16_bytes(r.storage_index as int) + post);
    lemma_le16_of_bytes(r.storage_index as int, pre + f + u16_bytes(r.stable_id as int), post);
    assert(row_bytes(r).len() == f.len() + 4);
}

#[verifier::spinoff_prover]
#[verifier::rlimit(60)]
proof fn lemma_rows_read(pre: Seq<u8>, s: Seq<PackedRow>, post: Seq<u8>, acc: Seq<(Seq<char>, int, int)>)
    requires
        forall|i: int|
            0 <= i < s.len() ==> table_name_ok((#[trigger] s[i]).table@) && utf8_of(s[i].table@).len() <= 65536,
    ensures
        rows_acc(pre + rows_bytes(s) + post, pre.len() as int, s.len(), acc) == Ok::<
            (Seq<(Seq<char>, int, int)>, int),
            Seq<char>,
        >((acc + s.map_values(|r: PackedRow| row_model(r)), pre.len() + rows_bytes(s).len() as int)),
    decreases s.len(),
{
    if s.len() == 0 {
        assert(acc + s.map_values(|r: PackedRow| row_model(r)) =~= acc);
        assert(rows_bytes(s) == Seq::<u8>::empty());
    } else {
        let t = s.drop_first();
        lemma_rows_split(s);
        let b = pre + rows_bytes(s) + post;
        assert(b =~= pre + row_bytes(s[0]) + (rows_bytes(t) + post));
        lemma_row_read(pre, s[0], rows_bytes(t) + post);
        let pre2 = pre + row_bytes(s[0]);
        assert(b =~= pre2 + rows_bytes(t) + post);
        assert forall|i: int| 0 <= i < t.len() implies table_name_ok((#[trigger] t[i]).table@) && utf8_of(
            t[i].table@,
        ).len() <= 65536 by {
            assert(t[i] == s[i + 1]);
        }
        lemma_rows_read(pre2, t, post, acc.push(row_model(s[0])));
        assert(acc.push(row_model(s[0])) + t.map_values(|r: PackedRow| row_model(r)) =~= acc + s.map_values(
            |r: PackedRow| row_model(r),
        ));
    }
}


/// What reading a SKU yields.
pub open spec fn sku_model(k: SkuBundlePlan) -> (Seq<char>, Seq<u8>) {
    (k.sku@, k.permutations@)
}

#[verifier::spinoff_prover]
#[verifier::rlimit(40)]
proof fn lemma_sku_read(pre: Seq<u8>, k: SkuBundlePlan, post: Seq<u8>)
    requires
        utf8_of(k.sku@).len() <= 65536,
        k.permutations@.len() <= 16,
        bytes_ascend(k.permutations@),
    ensures
        sku_at(pre + sku_bytes(k) + post, pre.len() as int) == Ok::<((Seq<char>, Seq<u8>), int), Seq<char>>(
            (sku_model(k), pre.len() + sku_bytes(k).len() as int),
        ),
{
    let f = field(utf8_of(k.sku@));
    let g = field(k.permutations@);
    let b = pre + sku_bytes(k) + post;
    assert(b =~= pre + f + (g + post));
    lemma_str_read(pre, k.sku@, g + post);
    assert(b =~= (pre + f) + g + post);
    lemma_field_read(pre + f, k.permutations@, post, 16);
}

#[verifier::spinoff_prover]
#[verifier::rlimit(60)]
proof fn lemma_skus_read(pre: Seq<u8>, s: Seq<SkuBundlePlan>, post: Seq<u8>, acc: Seq<(Seq<char>, Seq<u8>)>)
    requires
        forall|i: int|
            0 <= i < s.len() ==> utf8_of((#[trigger] s[i]).sku@).len() <= 65536 && s[i].permutations@.len() <= 16
                && bytes_ascend(s[i].permutations@),
    ensures
        skus_acc(pre + skus_bytes(s) + post, pre.len() as int, s.len(), acc) == Ok::<
            (Seq<(Seq<char>, Seq<u8>)>, int),
            Seq<char>,
        >((acc + s.map_values(|k: SkuBundlePlan| sku_model(k)), pre.len() + skus_bytes(s).len() as int)),
    decreases s.len(),
{
    if s.len() == 0 {
        assert(acc + s.map_values(|k: SkuBundlePlan| sku_model(k)) =~= acc);
        assert(skus_bytes(s) == Seq::<u8>::empty());
    } else {
        let t = s.drop_first();
        lemma_skus_split(s);
        let b = pre + skus_bytes(s) + post;
        assert(b =~= pre + sku_bytes(s[0]) + (skus_bytes(t) + post));
        lemma_sku_read(pre, s[0], skus_bytes(t) + post);
        let pre2 = pre + sku_bytes(s[0]);
        assert(b =~= pre2 + skus_bytes(t) + post);
        assert forall|i: int| 0 <= i < t.len() implies utf8_of((#[trigger] t[i]).sku@).len() <= 65536
            && t[i].permutations@.len() <= 16 && bytes_ascend(t[i].permutations@) by {
            assert(t[i] == s[i + 1]);
        }
        lemma_skus_read(pre2, t, post, acc.push(sku_model(s[0])));
        assert(acc.push(sku_model(s[0])) + t.map_values(|k: SkuBundlePlan| sku_model(k)) =~= acc + s.map_values(
            |k: SkuBundlePlan| sku_model(k),
        ));
    }
}

/// A runtime file the reader accepts on its own: a safe runtime path and
/// contents within the cap.
pub open spec fn file_readable(f: (String, Vec<u8>)) -> bool {
    &&& utf8_of(f.0@).len() <= 65536
    &&& path_safe(f.0@)
    &&& f.1@.len() <= MAX_PLAN_FILE_BYTES
}

#[verifier::spinoff_prover]
#[verifier::rlimit(80)]
proof fn lemma_file_read(pre: Seq<u8>, f: (String, Vec<u8>), post: Seq<u8>, acc: Seq<(Seq<char>, Seq<u8>)>)
    requires
        file_readable(f),
        !has_path(acc, f.0@),
    ensures
        file_at(pre + file_bytes(f) + post, pre.len() as int, acc) == Ok::<((Seq<char>, Seq<u8>), int), Seq<char>>(
            ((f.0@, f.1@), pre.len() + file_bytes(f).len() as int),
        ),
{
    let x = field(utf8_of(f.0@));
    let g = field(f.1@);
    let b = pre + file_bytes(f) + post;
    assert(b =~= pre + x + (g + post));
    lemma_str_read(pre, f.0@, g + post);
    assert(b =~= (pre + x) + g + post);
    lemma_field_read(pre + x, f.1@, post, MAX_PLAN_FILE_BYTES as int);
    let o = pre.len() as int;
    let o1 = o + x.len();
    let n = f.1@.len() as int;
    assert(str_at(b, o) == Ok::<(Seq<char>, int), Seq<char>>((f.0@, o1)));
    assert(count_at(b, o1, MAX_PLAN_FILE_BYTES as int) == Ok::<(int, int), Seq<char>>((n, o1 + 4)));
    assert(b.subrange(o1 + 4, o1 + 4 + n) == f.1@);
    assert(file_bytes(f).len() == x.len() + 4 + n);
}

proof fn lemma_lex_asymmetric(a: Seq<u8>, b: Seq<u8>)
    requires
        lex_lt(a, b),
    ensures
        !lex_lt(b, a),
{
    if lex_lt(b, a) {
        lemma_lex_transitive(a, b, a);
        lemma_lex_irreflexive(a);
    }
}

proof fn lemma_insert_last(s: Seq<(Seq<char>, Seq<u8>)>, x: (Seq<char>, Seq<u8>))
    requires
        forall|e: int| 0 <= e < s.len() ==> text_before((#[trigger] s[e]).0, x.0),
    ensures
        insert_file(s, x) == s.push(x),
    decreases s.len(),
{
    if s.len() == 0 {
        assert(seq![x] =~= s.push(x));
    } else {
        lemma_lex_asymmetric(utf8(s[0].0), utf8(x.0));
        let t = s.drop_first();
        assert forall|e: int| 0 <= e < t.len() implies text_before((#[trigger] t[e]).0, x.0) by {
            assert(t[e] == s[e + 1]);
        }
        lemma_insert_last(t, x);
        assert(seq![s[0]] + t.push(x) =~= s.push(x));
    }
}

#[verifier::spinoff_prover]
#[verifier::rlimit(60)]
proof fn lemma_files_read(pre: Seq<u8>, s: Seq<(String, Vec<u8>)>, post: Seq<u8>, acc: Seq<(Seq<char>, Seq<u8>)>)
    requires
        forall|i: int| 0 <= i < s.len() ==> file_readable(#[trigger] s[i]),
        forall|i: int, j: int| 0 <= i < j < s.len() ==> text_before((#[trigger] s[i]).0@, (#[trigger] s[j]).0@),
        forall|e: int, i: int| 0 <= e < acc.len() && 0 <= i < s.len() ==> text_before((#[trigger] acc[e]).0, (#[trigger] s[i]).0@),
    ensures
        files_acc(pre + files_bytes(s) + post, pre.len() as int, s.len(), acc) is Ok,
        files_acc(pre + files_bytes(s) + post, pre.len() as int, s.len(), acc)->Ok_0.1 == pre.len() + files_bytes(s).len(),
        files_acc(pre + files_bytes(s) + post, pre.len() as int, s.len(), acc)->Ok_0.0 == acc + files_view(s),
    decreases s.len(),
{
    if s.len() == 0 {
        assert(files_bytes(s) == Seq::<u8>::empty());
        assert(acc + files_view(s) =~= acc);
    } else {
        let t = s.drop_first();
        lemma_files_split(s);
        let b = pre + files_bytes(s) + post;
        assert(b =~= pre + file_bytes(s[0]) + (files_bytes(t) + post));
        assert(!has_path(acc, s[0].0@)) by {
            if has_path(acc, s[0].0@) {
                let e = choose|e: int| 0 <= e < acc.len() && (#[trigger] acc[e]).0 == s[0].0@;
                assert(text_before(acc[e].0, s[0].0@));
                lemma_lex_irreflexive(utf8(s[0].0@));
            }
        }
        lemma_file_read(pre, s[0], files_bytes(t) + post, acc);
        let pre2 = pre + file_bytes(s[0]);
        assert(b =~= pre2 + files_bytes(t) + post);
        let x = (s[0].0@, s[0].1@);
        let acc2 = insert_file(acc, x);
        lemma_insert_len(acc, x);
        assert forall|i: int| 0 <= i < t.len() implies file_readable(#[trigger] t[i]) by {
            assert(t[i] == s[i + 1]);
        }
        assert forall|i: int, j: int| 0 <= i < j < t.len() implies text_before((#[trigger] t[i]).0@, (#[trigger] t[j]).0@) by {
            assert(t[i] == s[i + 1] && t[j] == s[j + 1]);
        }
        assert forall|e: int, i: int| 0 <= e < acc2.len() && 0 <= i < t.len() implies text_before(
            (#[trigger] acc2[e]).0,
            (#[trigger] t[i]).0@,
        ) by {
            assert(t[i] == s[i + 1]);
            lemma_insert_members(acc, x, e);
            if acc2[e] != x {
                let q = choose|q: int| 0 <= q < acc.len() && acc[q] == acc2[e];
                assert(text_before(acc[q].0, s[i + 1].0@));
            } else {
                assert(text_before(s[0].0@, s[i + 1].0@));
            }
        }
        lemma_files_read(pre2, t, post, acc2);
        assert forall|e: int| 0 <= e < acc.len() implies text_before((#[trigger] acc[e]).0, x.0) by {
            assert(text_before(acc[e].0, s[0].0@));
        }
        lemma_insert_last(acc, x);
        assert(acc2 + files_view(t) =~= acc + files_view(s));
    }
}


proof fn lemma_le_bytes_len(x: int, n: nat)
    ensures
        le_bytes(x, n).len() == n,
    decreases n,
{
    if n > 0 {
        lemma_le_bytes_len(x / 256, (n - 1) as nat);
    }
}

proof fn lemma_le_bytes_word(x: int, n: nat)
    requires
        x >= 0,
        n >= 4,
    ensures
        le_bytes(x, n) == u32_bytes(x % 0x1_0000_0000) + le_bytes(x / 0x1_0000_0000, (n - 4) as nat),
{
    let y = x % 0x1_0000_0000;
    assert(y % 256 == x % 256) by (nonlinear_arith)
        requires
            x >= 0,
            y == x % 0x1_0000_0000,
    ;
    assert((y / 256) % 256 == (x / 256) % 256) by (nonlinear_arith)
        requires
            x >= 0,
            y == x % 0x1_0000_0000,
    ;
    assert((y / 65536) % 256 == (x / 256 / 256) % 256) by (nonlinear_arith)
        requires
            x >= 0,
            y == x % 0x1_0000_0000,
    ;
    assert((y / 16777216) % 256 == (x / 256 / 256 / 256) % 256) by (nonlinear_arith)
        requires
            x >= 0,
            y == x % 0x1_0000_0000,
    ;
    assert(x / 256 / 256 / 256 / 256 == x / 0x1_0000_0000) by (nonlinear_arith)
        requires
            x >= 0,
    ;
    let x1 = x / 256;
    let x2 = x1 / 256;
    let x3 = x2 / 256;
    let x4 = x3 / 256;
    assert(le_bytes(x, n) == seq![(x % 256) as u8] + le_bytes(x1, (n - 1) as nat));
    assert(le_bytes(x1, (n - 1) as nat) == seq![(x1 % 256) as u8] + le_bytes(x2, (n - 2) as nat));
    assert(le_bytes(x2, (n - 2) as nat) == seq![(x2 % 256) as u8] + le_bytes(x3, (n - 3) as nat));
    assert(le_bytes(x3, (n - 3) as nat) == seq![(x3 % 256) as u8] + le_bytes(x4, (n - 4) as nat));
    assert(le_bytes(x, n) =~= u32_bytes(y) + le_bytes(x4, (n - 4) as nat));
}

/// The 128-bit identity reads back.
#[verifier::spinoff_prover]
#[verifier::rlimit(80)]
proof fn lemma_le128_read(x: int, pre: Seq<u8>, post: Seq<u8>)
    requires
        0 <= x < 0x1_0000_0000_0000_0000_0000_0000_0000_0000,
    ensures
        le128(pre + le_bytes(x, 16) + post, pre.len() as int) == x,
{
    let a = x % 0x1_0000_0000;
    let x1 = x / 0x1_0000_0000;
    let c = x1 % 0x1_0000_0000;
    let x2 = x1 / 0x1_0000_0000;
    let d = x2 % 0x1_0000_0000;
    let x3 = x2 / 0x1_0000_0000;
    let e = x3 % 0x1_0000_0000;
    lemma_le_bytes_word(x, 16);
    lemma_le_bytes_word(x1, 12);
    lemma_le_bytes_word(x2, 8);
    lemma_le_bytes_word(x3, 4);
    assert(le_bytes(x3 / 0x1_0000_0000, 0) == Seq::<u8>::empty());
    assert(le_bytes(x3, 4) =~= u32_bytes(e));
    assert(le_bytes(x2, 8) =~= u32_bytes(d) + u32_bytes(e));
    assert(le_bytes(x1, 12) =~= u32_bytes(c) + u32_bytes(d) + u32_bytes(e));
    let w = u32_bytes(a) + u32_bytes(c) + u32_bytes(d) + u32_bytes(e);
    assert(le_bytes(x, 16) =~= w);
    let b = pre + le_bytes(x, 16) + post;
    assert(b =~= pre + u32_bytes(a) + (u32_bytes(c) + u32_bytes(d) + u32_bytes(e) + post));
    lemma_le32_of_bytes(a, pre, u32_bytes(c) + u32_bytes(d) + u32_bytes(e) + post);
    assert(b =~= (pre + u32_bytes(a)) + u32_bytes(c) + (u32_bytes(d) + u32_bytes(e) + post));
    lemma_le32_of_bytes(c, pre + u32_bytes(a), u32_bytes(d) + u32_bytes(e) + post);
    assert(b =~= (pre + u32_bytes(a) + u32_bytes(c)) + u32_bytes(d) + (u32_bytes(e) + post));
    lemma_le32_of_bytes(d, pre + u32_bytes(a) + u32_bytes(c), u32_bytes(e) + post);
    assert(b =~= (pre + u32_bytes(a) + u32_bytes(c) + u32_bytes(d)) + u32_bytes(e) + post);
    assert(x3 < 0x1_0000_0000) by (nonlinear_arith)
        requires
            0 <= x < 0x1_0000_0000_0000_0000_0000_0000_0000_0000,
            x1 == x / 0x1_0000_0000,
            x2 == x1 / 0x1_0000_0000,
            x3 == x2 / 0x1_0000_0000,
    ;
    lemma_le32_of_bytes(e, pre + u32_bytes(a) + u32_bytes(c) + u32_bytes(d), post);
    assert(a + 0x1_0000_0000 * c + 0x1_0000_0000_0000_0000 * d + 0x1_0000_0000_0000_0000_0000_0000 * e == x) by (nonlinear_arith)
        requires
            x >= 0,
            a == x % 0x1_0000_0000,
            x1 == x / 0x1_0000_0000,
            c == x1 % 0x1_0000_0000,
            x2 == x1 / 0x1_0000_0000,
            d == x2 % 0x1_0000_0000,
            x3 == x2 / 0x1_0000_0000,
            e == x3 % 0x1_0000_0000,
            x3 < 0x1_0000_0000,
    ;
}


proof fn lemma_assets_layout(s: Seq<BlobId>)
    ensures
        assets_bytes(s).len() == 32 * s.len(),
        forall|i: int| 0 <= i < s.len() ==> assets_bytes(s).subrange(32 * i, 32 * i + 32) == (#[trigger] s[i]).0@,
    decreases s.len(),
{
    if s.len() > 0 {
        let a = s.drop_last();
        lemma_assets_layout(a);
        let ab = assets_bytes(a);
        let all = assets_bytes(s);
        assert(all == ab + s.last().0@);
        assert forall|i: int| 0 <= i < s.len() implies all.subrange(32 * i, 32 * i + 32) == (#[trigger] s[i]).0@ by {
            if i < s.len() - 1 {
                assert(a[i] == s[i]);
                assert(all.subrange(32 * i, 32 * i + 32) =~= ab.subrange(32 * i, 32 * i + 32));
            } else {
                assert(all.subrange(32 * i, 32 * i + 32) =~= s.last().0@);
            }
        }
    }
}

proof fn lemma_places_split(s: Seq<PlaceBundlePlan>)
    requires
        s.len() > 0,
    ensures
        places_bytes(s) == place_bytes(s[0]) + places_bytes(s.drop_first()),
    decreases s.len(),
{
    if s.len() == 1 {
        assert(places_bytes(s.drop_last()) == Seq::<u8>::empty());
        assert(places_bytes(s.drop_first()) == Seq::<u8>::empty());
        assert(s.last() == s[0]);
        assert(places_bytes(s) =~= place_bytes(s[0]) + places_bytes(s.drop_first()));
    } else {
        let a = s.drop_last();
        let t = s.drop_first();
        lemma_places_split(a);
        assert(a.drop_first() =~= t.drop_last());
        assert(a[0] == s[0]);
        assert(t.last() == s.last());
        assert(places_bytes(s) == places_bytes(a) + place_bytes(s.last()));
        assert(places_bytes(t) == places_bytes(t.drop_last()) + place_bytes(t.last()));
        assert(places_bytes(s) =~= place_bytes(s[0]) + places_bytes(t));
    }
}

/// A Place bundle the reader accepts: few enough assets, strictly ascending.
pub open spec fn place_readable(p: PlaceBundlePlan) -> bool {
    &&& p.assets@.len() <= MAX_PLAN_FILES
    &&& forall|k: int| 0 <= k < p.assets@.len() - 1 ==> bytes_lt((#[trigger] p.assets@[k]).0@, p.assets@[k + 1].0@)
}

#[verifier::spinoff_prover]
#[verifier::rlimit(80)]
proof fn lemma_place_read(pre: Seq<u8>, p: PlaceBundlePlan, post: Seq<u8>)
    requires
        place_readable(p),
    ensures
        place_at(pre + place_bytes(p) + post, pre.len() as int) == Ok::<int, Seq<char>>(
            pre.len() + place_bytes(p).len() as int,
        ),
        le16(pre + place_bytes(p) + post, pre.len() + 40int) == p.access_group,
        le128(pre + place_bytes(p) + post, pre.len() as int) == p.place.spec_raw(),
{
    let l = le_bytes(p.place.spec_raw() as int, 16);
    let a = aabb_bytes(p.aabb);
    let g = u16_bytes(p.access_group as int);
    let n = p.assets@.len() as int;
    let nb = u32_bytes(n);
    let sb = assets_bytes(p.assets@);
    lemma_le_bytes_len(p.place.spec_raw() as int, 16);
    lemma_assets_layout(p.assets@);
    let b = pre + place_bytes(p) + post;
    let o = pre.len() as int;
    assert(a.len() == 24);
    assert(b =~= pre + l + (a + g + nb + sb + post));
    lemma_le128_read(p.place.spec_raw() as int, pre, a + g + nb + sb + post);
    assert(b =~= (pre + l + a) + g + (nb + sb + post));
    lemma_le16_of_bytes(p.access_group as int, pre + l + a, nb + sb + post);
    assert(b =~= (pre + l + a + g) + nb + (sb + post));
    lemma_le32_of_bytes(n, pre + l + a + g, sb + post);
    assert(count_at(b, o + 42, MAX_PLAN_FILES as int) == Ok::<(int, int), Seq<char>>((n, o + 46)));
    assert forall|i: int| 0 <= i < n implies blob_at(b, o + 46, i) == (#[trigger] p.assets@[i]).0@ by {
        assert(blob_at(b, o + 46, i) =~= sb.subrange(32 * i, 32 * i + 32));
    }
    assert(blobs_ascend(b, o + 46, n)) by {
        assert forall|i: int| 0 <= i < n - 1 implies bytes_lt(#[trigger] blob_at(b, o + 46, i), blob_at(b, o + 46, i + 1)) by {
            assert(blob_at(b, o + 46, i) == p.assets@[i].0@);
            assert(blob_at(b, o + 46, i + 1) == p.assets@[i + 1].0@);
        }
    }
    assert(place_bytes(p).len() == 46 + 32 * n);
}

#[verifier::spinoff_prover]
#[verifier::rlimit(60)]
proof fn lemma_aabb_read(pre: Seq<u8>, bx: AabbMm, post: Seq<u8>)
    ensures
        signed32(le32(pre + aabb_bytes(bx) + post, pre.len() + 0int)) == bx.min.x,
        signed32(le32(pre + aabb_bytes(bx) + post, pre.len() + 4int)) == bx.min.y,
        signed32(le32(pre + aabb_bytes(bx) + post, pre.len() + 8int)) == bx.min.z,
        signed32(le32(pre + aabb_bytes(bx) + post, pre.len() + 12int)) == bx.max.x,
        signed32(le32(pre + aabb_bytes(bx) + post, pre.len() + 16int)) == bx.max.y,
        signed32(le32(pre + aabb_bytes(bx) + post, pre.len() + 20int)) == bx.max.z,
{
    let b = pre + aabb_bytes(bx) + post;
    lemma_signed32_pattern(bx.min.x as int);
    assert(b =~= (pre) + u32_bytes(pattern32(bx.min.x as int)) + (u32_bytes(pattern32(bx.min.y as int)) + u32_bytes(pattern32(bx.min.z as int)) + u32_bytes(pattern32(bx.max.x as int)) + u32_bytes(pattern32(bx.max.y as int)) + u32_bytes(pattern32(bx.max.z as int)) + post));
    lemma_le32_of_bytes(pattern32(bx.min.x as int), pre, u32_bytes(pattern32(bx.min.y as int)) + u32_bytes(pattern32(bx.min.z as int)) + u32_bytes(pattern32(bx.max.x as int)) + u32_bytes(pattern32(bx.max.y as int)) + u32_bytes(pattern32(bx.max.z as int)) + post);
    lemma_signed32_pattern(bx.min.y as int);
    assert(b =~= (pre + u32_bytes(pattern32(bx.min.x as int))) + u32_bytes(pattern32(bx.min.y as int)) + (u32_bytes(pattern32(bx.min.z as int)) + u32_bytes(pattern32(bx.max.x as int)) + u32_bytes(pattern32(bx.max.y as int)) + u32_bytes(pattern32(bx.max.z as int)) + post));
    lemma_le32_of_bytes(pattern32(bx.min.y as int), pre + u32_bytes(pattern32(bx.min.x as int)), u32_bytes(pattern32(bx.min.z as int)) + u32_bytes(pattern32(bx.max.x as int)) + u32_bytes(pattern32(bx.max.y as int)) + u32_bytes(pattern32(bx.max.z as int)) + post);
    lemma_signed32_pattern(bx.min.z as int);
    assert(b =~= (pre + u32_bytes(pattern32(bx.min.x as int)) + u32_bytes(pattern32(bx.min.y as int))) + u32_bytes(pattern32(bx.min.z as int)) + (u32_bytes(pattern32(bx.max.x as int)) + u32_bytes(pattern32(bx.max.y as int)) + u32_bytes(pattern32(bx.max.z as int)) + post));
    lemma_le32_of_bytes(pattern32(bx.min.z as int), pre + u32_bytes(pattern32(bx.min.x as int)) + u32_bytes(pattern32(bx.min.y as int)), u32_bytes(pattern32(bx.max.x as int)) + u32_bytes(pattern32(bx.max.y as int)) + u32_bytes(pattern32(bx.max.z as int)) + post);
    lemma_signed32_pattern(bx.max.x as int);
    assert(b =~= (pre + u32_bytes(pattern32(bx.min.x as int)) + u32_bytes(pattern32(bx.min.y as int)) + u32_bytes(pattern32(bx.min.z as int))) + u32_bytes(pattern32(bx.max.x as int)) + (u32_bytes(pattern32(bx.max.y as int)) + u32_bytes(pattern32(bx.max.z as int)) + post));
    lemma_le32_of_bytes(pattern32(bx.max.x as int), pre + u32_bytes(pattern32(bx.min.x as int)) + u32_bytes(pattern32(bx.min.y as int)) + u32_bytes(pattern32(bx.min.z as int)), u32_bytes(pattern32(bx.max.y as int)) + u32_bytes(pattern32(bx.max.z as int)) + post);
    lemma_signed32_pattern(bx.max.y as int);
    assert(b =~= (pre + u32_bytes(pattern32(bx.min.x as int)) + u32_bytes(pattern32(bx.min.y as int)) + u32_bytes(pattern32(bx.min.z as int)) + u32_bytes(pattern32(bx.max.x as int))) + u32_bytes(pattern32(bx.max.y as int)) + (u32_bytes(pattern32(bx.max.z as int)) + post));
    lemma_le32_of_bytes(pattern32(bx.max.y as int), pre + u32_bytes(pattern32(bx.min.x as int)) + u32_bytes(pattern32(bx.min.y as int)) + u32_bytes(pattern32(bx.min.z as int)) + u32_bytes(pattern32(bx.max.x as int)), u32_bytes(pattern32(bx.max.z as int)) + post);
    lemma_signed32_pattern(bx.max.z as int);
    assert(b =~= (pre + u32_bytes(pattern32(bx.min.x as int)) + u32_bytes(pattern32(bx.min.y as int)) + u32_bytes(pattern32(bx.min.z as int)) + u32_bytes(pattern32(bx.max.x as int)) + u32_bytes(pattern32(bx.max.y as int))) + u32_bytes(pattern32(bx.max.z as int)) + (post));
    lemma_le32_of_bytes(pattern32(bx.max.z as int), pre + u32_bytes(pattern32(bx.min.x as int)) + u32_bytes(pattern32(bx.min.y as int)) + u32_bytes(pattern32(bx.min.z as int)) + u32_bytes(pattern32(bx.max.x as int)) + u32_bytes(pattern32(bx.max.y as int)), post);
}

/// Where the bytes at `o` hold Place bundle `p`: its identity, box, group,
/// asset count and assets.
pub open spec fn place_written(b: Seq<u8>, o: int, p: PlaceBundlePlan) -> bool {
    &&& le128(b, o) == p.place.spec_raw()
    &&& signed32(le32(b, o + 16)) == p.aabb.min.x
    &&& signed32(le32(b, o + 20)) == p.aabb.min.y
    &&& signed32(le32(b, o + 24)) == p.aabb.min.z
    &&& signed32(le32(b, o + 28)) == p.aabb.max.x
    &&& signed32(le32(b, o + 32)) == p.aabb.max.y
    &&& signed32(le32(b, o + 36)) == p.aabb.max.z
    &&& le16(b, o + 40) == p.access_group
    &&& le32(b, o + 42) == p.assets@.len()
    &&& forall|i: int| 0 <= i < p.assets@.len() ==> blob_at(b, o + 46, i) == (#[trigger] p.assets@[i]).0@
}

#[verifier::spinoff_prover]
#[verifier::rlimit(80)]
proof fn lemma_place_written(pre: Seq<u8>, p: PlaceBundlePlan, post: Seq<u8>)
    requires
        p.assets@.len() < 0x1_0000_0000,
    ensures
        place_written(pre + place_bytes(p) + post, pre.len() as int, p),
{
    let l = le_bytes(p.place.spec_raw() as int, 16);
    let a = aabb_bytes(p.aabb);
    let g = u16_bytes(p.access_group as int);
    let n = p.assets@.len() as int;
    let nb = u32_bytes(n);
    let sb = assets_bytes(p.assets@);
    lemma_le_bytes_len(p.place.spec_raw() as int, 16);
    lemma_assets_layout(p.assets@);
    let b = pre + place_bytes(p) + post;
    let o = pre.len() as int;
    assert(a.len() == 24);
    assert(b =~= pre + l + (a + g + nb + sb + post));
    lemma_le128_read(p.place.spec_raw() as int, pre, a + g + nb + sb + post);
    assert(b =~= (pre + l) + a + (g + nb + sb + post));
    lemma_aabb_read(pre + l, p.aabb, g + nb + sb + post);
    assert(b =~= (pre + l + a) + g + (nb + sb + post));
    lemma_le16_of_bytes(p.access_group as int, pre + l + a, nb + sb + post);
    assert(b =~= (pre + l + a + g) + nb + (sb + post));
    lemma_le32_of_bytes(n, pre + l + a + g, sb + post);
    assert forall|i: int| 0 <= i < n implies blob_at(b, o + 46, i) == (#[trigger] p.assets@[i]).0@ by {
        assert(blob_at(b, o + 46, i) =~= sb.subrange(32 * i, 32 * i + 32));
    }
}

#[verifier::spinoff_prover]
#[verifier::rlimit(60)]
proof fn lemma_places_read(pre: Seq<u8>, s: Seq<PlaceBundlePlan>, post: Seq<u8>, acc: Seq<int>)
    requires
        forall|i: int| 0 <= i < s.len() ==> place_readable(#[trigger] s[i]),
    ensures
        places_acc(pre + places_bytes(s) + post, pre.len() as int, s.len(), acc) is Ok,
        ({
            let (offs, e) = places_acc(pre + places_bytes(s) + post, pre.len() as int, s.len(), acc)->Ok_0;
            &&& e == pre.len() + places_bytes(s).len()
            &&& offs.len() == acc.len() + s.len()
            &&& offs.take(acc.len() as int) == acc
            &&& forall|i: int|
                0 <= i < s.len() ==> le16(pre + places_bytes(s) + post, #[trigger] offs[acc.len() + i] + 40)
                    == s[i].access_group && le128(pre + places_bytes(s) + post, offs[acc.len() + i])
                    == s[i].place.spec_raw()
            &&& forall|i: int| 0 <= i < s.len() ==> place_written(pre + places_bytes(s) + post, #[trigger] offs[acc.len() + i], s[i])
        }),
    decreases s.len(),
{
    let b = pre + places_bytes(s) + post;
    if s.len() == 0 {
        assert(places_bytes(s) == Seq::<u8>::empty());
        assert(acc.take(acc.len() as int) =~= acc);
    } else {
        let t = s.drop_first();
        lemma_places_split(s);
        assert(b =~= pre + place_bytes(s[0]) + (places_bytes(t) + post));
        lemma_place_read(pre, s[0], places_bytes(t) + post);
        lemma_place_written(pre, s[0], places_bytes(t) + post);
        let pre2 = pre + place_bytes(s[0]);
        assert(b =~= pre2 + places_bytes(t) + post);
        assert forall|i: int| 0 <= i < t.len() implies place_readable(#[trigger] t[i]) by {
            assert(t[i] == s[i + 1]);
        }
        let acc2 = acc.push(pre.len() as int);
        lemma_places_read(pre2, t, post, acc2);
        let (offs, e) = places_acc(b, pre2.len() as int, t.len(), acc2)->Ok_0;
        assert(offs.take(acc2.len() as int) == acc2);
        assert(offs.take(acc.len() as int) =~= acc) by {
            assert forall|k: int| 0 <= k < acc.len() implies offs[k] == acc[k] by {
                assert(offs.take(acc2.len() as int)[k] == acc2[k]);
            }
        }
        assert(offs[acc.len() as int] == pre.len()) by {
            assert(offs.take(acc2.len() as int)[acc.len() as int] == acc2[acc.len() as int]);
        }
        assert forall|i: int| 0 <= i < s.len() implies le16(b, #[trigger] offs[acc.len() + i] + 40) == s[i].access_group
            && le128(b, offs[acc.len() + i]) == s[i].place.spec_raw() by {
            if i > 0 {
                assert(t[i - 1] == s[i]);
                assert(acc2.len() + (i - 1) == acc.len() + i);
            }
        }
        assert forall|i: int| 0 <= i < s.len() implies place_written(b, #[trigger] offs[acc.len() + i], s[i]) by {
            if i > 0 {
                assert(t[i - 1] == s[i]);
                assert(acc2.len() + (i - 1) == acc.len() + i);
            }
        }
    }
}


/// A plan the reader takes back: every count, name and length within the
/// reader's caps, known table names, safe runtime paths, and the plan's
/// order.
pub open spec fn plan_readable(p: WholeTitlePlan) -> bool {
    &&& p.tables@.len() <= MAX_PLAN_ROWS
    &&& forall|i: int|
        0 <= i < p.tables@.len() ==> table_name_ok((#[trigger] p.tables@[i]).table@) && utf8_of(
            p.tables@[i].table@,
        ).len() <= 65536
    &&& p.places@.len() <= MAX_PLAN_ROWS
    &&& forall|i: int| 0 <= i < p.places@.len() ==> place_readable(#[trigger] p.places@[i])
    &&& p.skus@.len() <= MAX_PLAN_FILES
    &&& forall|i: int|
        0 <= i < p.skus@.len() ==> utf8_of((#[trigger] p.skus@[i]).sku@).len() <= 65536
            && p.skus@[i].permutations@.len() <= 16
    &&& p.runtime_files@.len() <= MAX_PLAN_FILES
    &&& forall|i: int| 0 <= i < p.runtime_files@.len() ==> file_readable(#[trigger] p.runtime_files@[i])
    &&& plan_sorted(p)
}

spec fn off_rows_end(p: WholeTitlePlan) -> int {
    9 + rows_bytes(p.tables@).len() as int
}

spec fn off_places_end(p: WholeTitlePlan) -> int {
    off_rows_end(p) + 4 + places_bytes(p.places@).len() as int
}

spec fn off_skus_end(p: WholeTitlePlan) -> int {
    off_places_end(p) + 4 + skus_bytes(p.skus@).len() as int
}

proof fn lemma_back_layout(p: WholeTitlePlan)
    ensures
        spec_plan_bytes(p) == seq![75u8, 79, 80, 84, 1] + u32_bytes(p.tables@.len() as int) + rows_bytes(p.tables@)
            + u32_bytes(p.places@.len() as int) + places_bytes(p.places@) + u32_bytes(p.skus@.len() as int)
            + skus_bytes(p.skus@) + u32_bytes(p.runtime_files@.len() as int) + files_bytes(p.runtime_files@),
{
}

#[verifier::spinoff_prover]
#[verifier::rlimit(60)]
proof fn lemma_back_head(p: WholeTitlePlan)
    requires
        plan_readable(p),
    ensures
        spec_plan_bytes(p).len() >= 5,
        spec_plan_bytes(p).take(4) == seq![75u8, 79, 80, 84],
        spec_plan_bytes(p)[4] == 1,
        count_at(spec_plan_bytes(p), 5, MAX_PLAN_ROWS as int) == Ok::<(int, int), Seq<char>>((p.tables@.len() as int, 9)),
        rows_acc(spec_plan_bytes(p), 9, p.tables@.len(), seq![]) is Ok,
        rows_acc(spec_plan_bytes(p), 9, p.tables@.len(), seq![])->Ok_0.1 == off_rows_end(p),
        rows_acc(spec_plan_bytes(p), 9, p.tables@.len(), seq![])->Ok_0.0 == p.tables@.map_values(
            |r: PackedRow| row_model(r),
        ),
{
    let h = seq![75u8, 79, 80, 84, 1];
    let nr = p.tables@.len() as int;
    let rb = rows_bytes(p.tables@);
    let rest = u32_bytes(p.places@.len() as int) + places_bytes(p.places@) + u32_bytes(p.skus@.len() as int)
        + skus_bytes(p.skus@) + u32_bytes(p.runtime_files@.len() as int) + files_bytes(p.runtime_files@);
    let b = spec_plan_bytes(p);
    lemma_back_layout(p);
    assert(b =~= h + u32_bytes(nr) + (rb + rest));
    assert(b.take(4) =~= seq![75u8, 79, 80, 84]);
    lemma_le32_of_bytes(nr, h, rb + rest);
    let p1 = h + u32_bytes(nr);
    assert(b =~= p1 + rb + rest);
    lemma_rows_read(p1, p.tables@, rest, seq![]);
    assert(seq![] + p.tables@.map_values(|r: PackedRow| row_model(r)) =~= p.tables@.map_values(
        |r: PackedRow| row_model(r),
    ));
}

#[verifier::spinoff_prover]
#[verifier::rlimit(80)]
proof fn lemma_back_places(p: WholeTitlePlan)
    requires
        plan_readable(p),
    ensures
        count_at(spec_plan_bytes(p), off_rows_end(p), MAX_PLAN_ROWS as int) == Ok::<(int, int), Seq<char>>(
            (p.places@.len() as int, off_rows_end(p) + 4),
        ),
        places_acc(spec_plan_bytes(p), off_rows_end(p) + 4, p.places@.len(), seq![]) is Ok,
        places_acc(spec_plan_bytes(p), off_rows_end(p) + 4, p.places@.len(), seq![])->Ok_0.1 == off_places_end(p),
        places_ascend(spec_plan_bytes(p), places_acc(spec_plan_bytes(p), off_rows_end(p) + 4, p.places@.len(), seq![])->Ok_0.0),
        places_acc(spec_plan_bytes(p), off_rows_end(p) + 4, p.places@.len(), seq![])->Ok_0.0.len() == p.places@.len(),
        forall|i: int|
            0 <= i < p.places@.len() ==> place_written(
                spec_plan_bytes(p),
                #[trigger] places_acc(spec_plan_bytes(p), off_rows_end(p) + 4, p.places@.len(), seq![])->Ok_0.0[i],
                p.places@[i],
            ),
{
    let np = p.places@.len() as int;
    let pb = places_bytes(p.places@);
    let p2 = seq![75u8, 79, 80, 84, 1] + u32_bytes(p.tables@.len() as int) + rows_bytes(p.tables@);
    let rest = u32_bytes(p.skus@.len() as int) + skus_bytes(p.skus@) + u32_bytes(p.runtime_files@.len() as int)
        + files_bytes(p.runtime_files@);
    let b = spec_plan_bytes(p);
    lemma_back_layout(p);
    assert(b =~= p2 + u32_bytes(np) + (pb + rest));
    assert(p2.len() == off_rows_end(p));
    lemma_le32_of_bytes(np, p2, pb + rest);
    let p3 = p2 + u32_bytes(np);
    assert(b =~= p3 + pb + rest);
    lemma_places_read(p3, p.places@, rest, seq![]);
    let (offs, o4) = places_acc(b, p3.len() as int, np as nat, seq![])->Ok_0;
    assert forall|i: int| 0 <= i < offs.len() - 1 implies {
        let g0 = le16(b, #[trigger] offs[i] + 40);
        let g1 = le16(b, offs[i + 1] + 40);
        g0 < g1 || (g0 == g1 && le128(b, offs[i]) < le128(b, offs[i + 1]))
    } by {
        assert(offs[0 + i] == offs[i]);
        assert(offs[0 + (i + 1)] == offs[i + 1]);
        let a = p.places@[i];
        let c = p.places@[i + 1];
        assert(a.access_group < c.access_group || (a.access_group == c.access_group && a.place.spec_raw()
            < c.place.spec_raw()));
    }
    assert forall|i: int| 0 <= i < p.places@.len() implies place_written(b, #[trigger] offs[i], p.places@[i]) by {
        assert(offs[0 + i] == offs[i]);
    }
}

#[verifier::spinoff_prover]
#[verifier::rlimit(80)]
proof fn lemma_back_skus(p: WholeTitlePlan)
    requires
        plan_readable(p),
    ensures
        count_at(spec_plan_bytes(p), off_places_end(p), MAX_PLAN_FILES as int) == Ok::<(int, int), Seq<char>>(
            (p.skus@.len() as int, off_places_end(p) + 4),
        ),
        skus_acc(spec_plan_bytes(p), off_places_end(p) + 4, p.skus@.len(), seq![]) is Ok,
        skus_acc(spec_plan_bytes(p), off_places_end(p) + 4, p.skus@.len(), seq![])->Ok_0.1 == off_skus_end(p),
        ids_ascend(skus_acc(spec_plan_bytes(p), off_places_end(p) + 4, p.skus@.len(), seq![])->Ok_0.0),
        skus_acc(spec_plan_bytes(p), off_places_end(p) + 4, p.skus@.len(), seq![])->Ok_0.0 == p.skus@.map_values(
            |k: SkuBundlePlan| sku_model(k),
        ),
{
    let ns = p.skus@.len() as int;
    let sb = skus_bytes(p.skus@);
    let p4 = seq![75u8, 79, 80, 84, 1] + u32_bytes(p.tables@.len() as int) + rows_bytes(p.tables@) + u32_bytes(
        p.places@.len() as int,
    ) + places_bytes(p.places@);
    let rest = u32_bytes(p.runtime_files@.len() as int) + files_bytes(p.runtime_files@);
    let b = spec_plan_bytes(p);
    lemma_back_layout(p);
    assert(b =~= p4 + u32_bytes(ns) + (sb + rest));
    assert(p4.len() == off_places_end(p));
    lemma_le32_of_bytes(ns, p4, sb + rest);
    let p5 = p4 + u32_bytes(ns);
    assert(b =~= p5 + sb + rest);
    assert forall|i: int| 0 <= i < p.skus@.len() implies utf8_of((#[trigger] p.skus@[i]).sku@).len() <= 65536
        && p.skus@[i].permutations@.len() <= 16 && bytes_ascend(p.skus@[i].permutations@) by {}
    lemma_skus_read(p5, p.skus@, rest, seq![]);
    let sk = p.skus@.map_values(|k: SkuBundlePlan| sku_model(k));
    assert(seq![] + sk =~= sk);
    assert forall|i: int| 0 <= i < sk.len() - 1 implies text_before(#[trigger] sk[i].0, sk[i + 1].0) by {
        assert(sk[i].0 == p.skus@[i].sku@);
        assert(sk[i + 1].0 == p.skus@[i + 1].sku@);
    }
}

#[verifier::spinoff_prover]
#[verifier::rlimit(80)]
proof fn lemma_back_files(p: WholeTitlePlan)
    requires
        plan_readable(p),
    ensures
        count_at(spec_plan_bytes(p), off_skus_end(p), MAX_PLAN_FILES as int) == Ok::<(int, int), Seq<char>>(
            (p.runtime_files@.len() as int, off_skus_end(p) + 4),
        ),
        files_acc(spec_plan_bytes(p), off_skus_end(p) + 4, p.runtime_files@.len(), seq![]) is Ok,
        files_acc(spec_plan_bytes(p), off_skus_end(p) + 4, p.runtime_files@.len(), seq![])->Ok_0.1
            == spec_plan_bytes(p).len(),
        files_acc(spec_plan_bytes(p), off_skus_end(p) + 4, p.runtime_files@.len(), seq![])->Ok_0.0 == files_view(
            p.runtime_files@,
        ),
{
    let nf = p.runtime_files@.len() as int;
    let fb = files_bytes(p.runtime_files@);
    let p6 = seq![75u8, 79, 80, 84, 1] + u32_bytes(p.tables@.len() as int) + rows_bytes(p.tables@) + u32_bytes(
        p.places@.len() as int,
    ) + places_bytes(p.places@) + u32_bytes(p.skus@.len() as int) + skus_bytes(p.skus@);
    let b = spec_plan_bytes(p);
    lemma_back_layout(p);
    assert(b =~= p6 + u32_bytes(nf) + fb);
    assert(p6.len() == off_skus_end(p));
    lemma_le32_of_bytes(nf, p6, fb);
    let p7 = p6 + u32_bytes(nf);
    assert(b =~= p7 + fb + Seq::<u8>::empty());
    lemma_files_read(p7, p.runtime_files@, Seq::<u8>::empty(), seq![]);
    assert(seq![] + files_view(p.runtime_files@) =~= files_view(p.runtime_files@));
}

spec fn back_offsets(p: WholeTitlePlan) -> Seq<int> {
    places_acc(spec_plan_bytes(p), off_rows_end(p) + 4, p.places@.len(), seq![])->Ok_0.0
}

#[verifier::spinoff_prover]
#[verifier::rlimit(80)]
proof fn lemma_back_model(p: WholeTitlePlan)
    requires
        plan_readable(p),
    ensures
        plan_read(spec_plan_bytes(p)) == Ok::<PlanModel, Seq<char>>(
            (
                p.tables@.map_values(|r: PackedRow| row_model(r)),
                back_offsets(p),
                p.skus@.map_values(|k: SkuBundlePlan| sku_model(k)),
                files_view(p.runtime_files@),
            ),
        ),
        back_offsets(p).len() == p.places@.len(),
        forall|i: int| 0 <= i < p.places@.len() ==> place_written(spec_plan_bytes(p), #[trigger] back_offsets(p)[i], p.places@[i]),
{
    lemma_back_head(p);
    lemma_back_places(p);
    lemma_back_skus(p);
    lemma_back_files(p);
}

/// What a plan holds, field by field: the decoded plan `d` carries `p`'s
/// rows, Place bundles, SKUs and runtime files.
pub open spec fn plan_same(d: WholeTitlePlan, p: WholeTitlePlan) -> bool {
    &&& d.tables@.len() == p.tables@.len()
    &&& forall|i: int|
        0 <= i < p.tables@.len() ==> (#[trigger] d.tables@[i]).table@ == p.tables@[i].table@ && d.tables@[i].stable_id
            == p.tables@[i].stable_id && d.tables@[i].storage_index == p.tables@[i].storage_index
    &&& d.places@.len() == p.places@.len()
    &&& forall|i: int|
        0 <= i < p.places@.len() ==> (#[trigger] d.places@[i]).place.spec_raw() == p.places@[i].place.spec_raw()
            && d.places@[i].aabb == p.places@[i].aabb && d.places@[i].access_group == p.places@[i].access_group
            && d.places@[i].assets@.len() == p.places@[i].assets@.len()
    &&& forall|i: int, k: int|
        0 <= i < p.places@.len() && 0 <= k < p.places@[i].assets@.len() ==> (#[trigger] d.places@[i].assets@[k]).0@
            == p.places@[i].assets@[k].0@
    &&& d.skus@.len() == p.skus@.len()
    &&& forall|i: int|
        0 <= i < p.skus@.len() ==> (#[trigger] d.skus@[i]).sku@ == p.skus@[i].sku@ && d.skus@[i].permutations@
            == p.skus@[i].permutations@
    &&& d.runtime_files@.len() == p.runtime_files@.len()
    &&& forall|i: int|
        0 <= i < p.runtime_files@.len() ==> (#[trigger] d.runtime_files@[i]).0@ == p.runtime_files@[i].0@
            && d.runtime_files@[i].1@ == p.runtime_files@[i].1@
}

/// The reader takes back every plan the encoder writes, when the plan is
/// within the reader's caps, names known tables and safe runtime paths, and
/// keeps the plan's order: reading succeeds, and any plan that stands for
/// what was read carries the written plan's rows, bundles, SKUs and files,
/// strips nothing, and is hashed by the digest of the bytes.
#[verifier::spinoff_prover]
#[verifier::rlimit(80)]
pub proof fn lemma_plan_read_back(p: WholeTitlePlan, d: WholeTitlePlan)
    requires
        plan_readable(p),
    ensures
        plan_read(spec_plan_bytes(p)) is Ok,
        plan_is(d, spec_plan_bytes(p), plan_read(spec_plan_bytes(p))->Ok_0) ==> plan_same(d, p)
            && d.stripped_paths@.len() == 0 && d.hash.0@ == blake3_digest(spec_plan_bytes(p)),
{
    lemma_back_model(p);
    let b = spec_plan_bytes(p);
    let m = plan_read(b)->Ok_0;
    if plan_is(d, b, m) {
        assert forall|i: int| 0 <= i < p.tables@.len() implies (#[trigger] d.tables@[i]).table@ == p.tables@[i].table@
            && d.tables@[i].stable_id == p.tables@[i].stable_id && d.tables@[i].storage_index
            == p.tables@[i].storage_index by {
            assert(row_is(d.tables@[i], m.0[i]));
        }
        assert forall|i: int| 0 <= i < p.places@.len() implies (#[trigger] d.places@[i]).place.spec_raw()
            == p.places@[i].place.spec_raw() && d.places@[i].aabb == p.places@[i].aabb && d.places@[i].access_group
            == p.places@[i].access_group && d.places@[i].assets@.len() == p.places@[i].assets@.len() by {
            assert(place_is(d.places@[i], b, m.1[i]));
            assert(place_written(b, m.1[i], p.places@[i]));
        }
        assert forall|i: int, k: int|
            0 <= i < p.places@.len() && 0 <= k < p.places@[i].assets@.len() implies (#[trigger] d.places@[i].assets@[k]).0@
            == p.places@[i].assets@[k].0@ by {
            assert(place_is(d.places@[i], b, m.1[i]));
            assert(place_written(b, m.1[i], p.places@[i]));
        }
        assert forall|i: int| 0 <= i < p.skus@.len() implies (#[trigger] d.skus@[i]).sku@ == p.skus@[i].sku@
            && d.skus@[i].permutations@ == p.skus@[i].permutations@ by {
            assert(m.2[i] == sku_model(p.skus@[i]));
        }
        assert forall|i: int| 0 <= i < p.runtime_files@.len() implies (#[trigger] d.runtime_files@[i]).0@
            == p.runtime_files@[i].0@ && d.runtime_files@[i].1@ == p.runtime_files@[i].1@ by {
            assert(m.3[i] == files_view(p.runtime_files@)[i]);
        }
    }
}

} // verus!

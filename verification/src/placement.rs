//! Compact placement tables: per place and zone, instance groups share CAS
//! blobs and each group's transforms are stored as column deltas.
use vstd::prelude::*;

use crate::envelope::{lemma_text_lt_irreflexive, lemma_text_lt_total, lemma_text_lt_transitive, text_less, text_lt};
use crate::bytes::{
    append_bytes, i16_pattern, i32_pattern, le16, le32, lemma_le16_of_bytes, lemma_le32_of_bytes, lemma_signed16_pattern,
    lemma_signed32_pattern, pattern16, pattern32, push_u16, push_u32, read_u16, read_u32, signed16, signed32, u16_bytes,
    u32_bytes,
};
use crate::failure::{decimal, spec_decimal, text, CompileError};
use crate::hash::{blake3_digest, hash_bytes, hex_text, BlobId};
use crate::names::Name;
use crate::space::IVec3;
use crate::units::YawMd;

verus! {

broadcast use vstd::seq_lib::to_multiset_insert;

/// Placement codec version.
pub const PLACEMENT_VERSION: u8 = 1;

/// Maximum records in one place/zone chunk.
pub const MAX_PLACEMENT_RECORDS: usize = 65_536;

/// Maximum instance groups in one chunk.
pub const MAX_INSTANCE_GROUPS: usize = 4_096;

/// One dressing instance before grouping.
#[derive(Clone, PartialEq, Eq, Debug)]
pub struct RawPlacement {
    /// Owning place name.
    pub place: Name,
    /// Owning zone.
    pub zone: Name,
    /// Mesh blob.
    pub mesh: BlobId,
    /// Material blob.
    pub material: BlobId,
    /// Optional clip blob.
    pub clip: Option<BlobId>,
    /// Variant index.
    pub variant: u16,
    /// Translation, millimetres.
    pub pose: IVec3,
    /// Yaw, millidegrees.
    pub yaw: YawMd,
    /// Uniform scale, permille.
    pub scale_permille: u16,
}

/// Shared binding keyed by content.
#[derive(Clone, Copy, PartialEq, Eq, Debug)]
pub struct InstanceGroup {
    /// Group identity: hash of the binding.
    pub id: crate::hash::Hash,
    /// Mesh blob.
    pub mesh: BlobId,
    /// Material blob.
    pub material: BlobId,
    /// Optional clip blob.
    pub clip: Option<BlobId>,
    /// Variant index.
    pub variant: u16,
    /// Record count in this chunk.
    pub count: u32,
}

/// One decoded placement record.
#[derive(Clone, Copy, PartialEq, Eq, Structural, Debug)]
pub struct PlacementRecord {
    /// Instance group.
    pub group: u16,
    /// Absolute pose.
    pub pose: IVec3,
    /// Absolute yaw.
    pub yaw: YawMd,
    /// Absolute scale.
    pub scale_permille: u16,
}

/// Content-addressed place/zone placement table.
#[derive(Clone, PartialEq, Eq, Debug)]
pub struct PlacementChunk {
    /// Place name.
    pub place: Name,
    /// Zone name.
    pub zone: Name,
    /// BLAKE3 digest of the encoded bytes.
    pub chunk_id: crate::hash::Hash,
    /// Encoded `KPLM` bytes.
    pub bytes: Vec<u8>,
    /// Groups in encode order.
    pub groups: Vec<InstanceGroup>,
    /// Decoded records (absolute).
    pub records: Vec<PlacementRecord>,
}

/// Materialized world: unique CAS blobs (ascending ids, each once) plus
/// per-zone chunks sorted by place and zone.
#[derive(Clone, Debug, Default)]
pub struct MaterializedWorld {
    /// Unique source blobs. Duplicate bytes share an id.
    pub blobs: Vec<(BlobId, Vec<u8>)>,
    /// Placement chunks, sorted by (place, zone).
    pub chunks: Vec<PlacementChunk>,
}

/// Place and zone of one placement chunk.
pub type ChunkKey = (Name, Name);

/// Incremental write report.
#[derive(Clone, Debug, PartialEq, Eq)]
pub struct PlacementWrite {
    /// Chunks whose bytes changed.
    pub dirty: Vec<ChunkKey>,
    /// Chunks reused byte-for-byte.
    pub reused: Vec<ChunkKey>,
    /// Written paths in chunk order.
    pub paths: Vec<String>,
}

/// Unique packaged blob count. Duplicate source bytes are not counted twice.
pub fn unique_blob_count(world: &MaterializedWorld) -> (r: usize)
    ensures
        r == world.blobs@.len(),
{
    world.blobs.len()
}

/// Text view of a chunk key.
pub open spec fn kv(k: ChunkKey) -> (Seq<char>, Seq<char>) {
    (k.0@, k.1@)
}

/// Text views of chunk keys.
pub open spec fn key_views(s: Seq<ChunkKey>) -> Seq<(Seq<char>, Seq<char>)> {
    s.map_values(|k: ChunkKey| kv(k))
}

/// Key order: by place, then by zone.
pub open spec fn key_lt(a: (Seq<char>, Seq<char>), b: (Seq<char>, Seq<char>)) -> bool {
    text_lt(a.0, b.0) || (a.0 == b.0 && text_lt(a.1, b.1))
}

/// Keys in non-decreasing order.
pub open spec fn keys_sorted(s: Seq<(Seq<char>, Seq<char>)>) -> bool {
    forall|i: int, j: int| 0 <= i < j < s.len() ==> !key_lt(#[trigger] s[j], #[trigger] s[i])
}

proof fn lemma_key_lt_total(a: (Seq<char>, Seq<char>), b: (Seq<char>, Seq<char>))
    ensures
        !key_lt(a, b) && !key_lt(b, a) ==> a == b,
        !(key_lt(a, b) && key_lt(b, a)),
{
    lemma_text_lt_total(a.0, b.0);
    lemma_text_lt_total(a.1, b.1);
}

proof fn lemma_key_lt_transitive(a: (Seq<char>, Seq<char>), b: (Seq<char>, Seq<char>), c: (Seq<char>, Seq<char>))
    requires
        key_lt(a, b),
        key_lt(b, c),
    ensures
        key_lt(a, c),
{
    if text_lt(a.0, b.0) && text_lt(b.0, c.0) {
        lemma_text_lt_transitive(a.0, b.0, c.0);
    }
    if a.0 == b.0 && b.0 == c.0 && text_lt(a.1, b.1) && text_lt(b.1, c.1) {
        lemma_text_lt_transitive(a.1, b.1, c.1);
    }
}

fn copy_key(k: &ChunkKey) -> (r: ChunkKey)
    ensures
        kv(r) == kv(*k),
{
    (Name::of(k.0.as_str()), Name::of(k.1.as_str()))
}

fn key_less(a: &ChunkKey, b: &ChunkKey) -> (r: bool)
    ensures
        r == key_lt(kv(*a), kv(*b)),
{
    if text_less(a.0.as_str(), b.0.as_str()) {
        true
    } else if crate::diag::str_eq(a.0.as_str(), b.0.as_str()) {
        text_less(a.1.as_str(), b.1.as_str())
    } else {
        false
    }
}

/// The keys in non-decreasing place-then-zone order, duplicates kept.
#[verifier::rlimit(40)]
#[verifier::spinoff_prover]
fn sort_keys(keys: &Vec<ChunkKey>) -> (r: Vec<ChunkKey>)
    ensures
        keys_sorted(key_views(r@)),
        key_views(r@).to_multiset() == key_views(keys@).to_multiset(),
{
    let mut out: Vec<ChunkKey> = Vec::new();
    let mut k: usize = 0;
    assert(key_views(keys@.take(0)) =~= key_views(out@));
    while k < keys.len()
        invariant
            0 <= k <= keys@.len(),
            keys_sorted(key_views(out@)),
            key_views(out@).to_multiset() == key_views(keys@.take(k as int)).to_multiset(),
        decreases keys@.len() - k,
    {
        let x = copy_key(&keys[k]);
        let mut p: usize = 0;
        while p < out.len() && !key_less(&x, &out[p])
            invariant
                0 <= p <= out@.len(),
                forall|i: int| 0 <= i < p ==> !key_lt(kv(x), #[trigger] kv(out@[i])),
            decreases out@.len() - p,
        {
            p = p + 1;
        }
        let ghost before = out@;
        out.insert(p, x);
        proof {
            let bv = key_views(before);
            let ov = key_views(out@);
            assert(ov =~= bv.insert(p as int, kv(x)));
            assert(keys_sorted(bv));
            assert forall|i: int, j: int| 0 <= i < j < ov.len() implies !key_lt(#[trigger] ov[j], #[trigger] ov[i]) by {
                if j < p {
                    assert(ov[i] == bv[i] && ov[j] == bv[j]);
                } else if j == p {
                    assert(ov[i] == kv(before[i]));
                } else if i == p {
                    assert(ov[j] == bv[j - 1]);
                    assert(key_lt(kv(x), bv[p as int]));
                    lemma_key_lt_total(kv(x), bv[p as int]);
                    if j - 1 > p {
                        assert(!key_lt(bv[j - 1], bv[p as int]));
                        if key_lt(bv[j - 1], kv(x)) {
                            lemma_key_lt_transitive(bv[j - 1], kv(x), bv[p as int]);
                        }
                    }
                } else if i < p {
                    assert(ov[j] == bv[j - 1]);
                    assert(ov[i] == bv[i]);
                    assert(!key_lt(bv[j - 1], bv[i]));
                } else {
                    assert(ov[i] == bv[i - 1]);
                    assert(ov[j] == bv[j - 1]);
                    assert(!key_lt(bv[j - 1], bv[i - 1]));
                }
            }
            assert(keys@.take(k as int + 1) =~= keys@.take(k as int).push(keys@[k as int]));
            assert(key_views(keys@.take(k as int + 1)) =~= key_views(keys@.take(k as int)).push(kv(x)));
            vstd::seq_lib::to_multiset_build(key_views(keys@.take(k as int)), kv(x));
        }
        k = k + 1;
    }
    assert(keys@.take(keys@.len() as int) =~= keys@);
    out
}

/// Text key of a chunk.
pub open spec fn ckv(c: PlacementChunk) -> (Seq<char>, Seq<char>) {
    (c.place@, c.zone@)
}

/// Id bytes that `prev` records for key `k`: its last chunk with that key.
pub open spec fn prev_id(prev: Seq<PlacementChunk>, k: (Seq<char>, Seq<char>)) -> Option<Seq<u8>>
    decreases prev.len(),
{
    if prev.len() == 0 {
        None
    } else if ckv(prev.last()) == k {
        Some(prev.last().chunk_id.0@)
    } else {
        prev_id(prev.drop_last(), k)
    }
}

/// Some chunk of `s` has key `k`.
pub open spec fn has_chunk_key(s: Seq<PlacementChunk>, k: (Seq<char>, Seq<char>)) -> bool {
    exists|i: int| 0 <= i < s.len() && ckv(#[trigger] s[i]) == k
}

/// Keys of `next`, in order, whose bytes differ from `prev` (or are new).
pub open spec fn changed_keys(prev: Seq<PlacementChunk>, next: Seq<PlacementChunk>) -> Seq<(Seq<char>, Seq<char>)>
    decreases next.len(),
{
    if next.len() == 0 {
        Seq::empty()
    } else {
        let rest = changed_keys(prev, next.drop_last());
        let c = next.last();
        if prev_id(prev, ckv(c)) == Some(c.chunk_id.0@) {
            rest
        } else {
            rest.push(ckv(c))
        }
    }
}

/// Keys of `next`, in order, whose bytes `prev` already has.
pub open spec fn kept_keys(prev: Seq<PlacementChunk>, next: Seq<PlacementChunk>) -> Seq<(Seq<char>, Seq<char>)>
    decreases next.len(),
{
    if next.len() == 0 {
        Seq::empty()
    } else {
        let rest = kept_keys(prev, next.drop_last());
        let c = next.last();
        if prev_id(prev, ckv(c)) == Some(c.chunk_id.0@) {
            rest.push(ckv(c))
        } else {
            rest
        }
    }
}

/// Keys of `prev`, each once, that `next` no longer has.
pub open spec fn gone_keys(prev: Seq<PlacementChunk>, next: Seq<PlacementChunk>) -> Seq<(Seq<char>, Seq<char>)>
    decreases prev.len(),
{
    if prev.len() == 0 {
        Seq::empty()
    } else {
        let rest = gone_keys(prev.drop_last(), next);
        let k = ckv(prev.last());
        if has_chunk_key(prev.drop_last(), k) || has_chunk_key(next, k) {
            rest
        } else {
            rest.push(k)
        }
    }
}

fn same_id(a: &crate::hash::Hash, b: &crate::hash::Hash) -> (r: bool)
    ensures
        r == (a.0@ == b.0@),
{
    let mut i: usize = 0;
    while i < 32
        invariant
            i <= 32,
            forall|j: int| 0 <= j < i ==> a.0@[j] == b.0@[j],
        decreases 32 - i,
    {
        if a.0[i] != b.0[i] {
            return false;
        }
        i = i + 1;
    }
    assert(a.0@ =~= b.0@);
    true
}

fn same_key(c: &PlacementChunk, place: &Name, zone: &Name) -> (r: bool)
    ensures
        r == (ckv(*c) == (place@, zone@)),
{
    crate::diag::str_eq(c.place.as_str(), place.as_str()) && crate::diag::str_eq(c.zone.as_str(), zone.as_str())
}

fn lookup_id(prev: &[PlacementChunk], place: &Name, zone: &Name) -> (r: Option<crate::hash::Hash>)
    ensures
        match r {
            Some(h) => prev_id(prev@, (place@, zone@)) == Some(h.0@),
            None => prev_id(prev@, (place@, zone@)) is None,
        },
{
    let mut i: usize = prev.len();
    assert(prev@.take(i as int) =~= prev@);
    while i > 0
        invariant
            i <= prev@.len(),
            prev_id(prev@, (place@, zone@)) == prev_id(prev@.take(i as int), (place@, zone@)),
        decreases i,
    {
        assert(prev@.take(i as int).drop_last() =~= prev@.take(i as int - 1));
        if same_key(&prev[i - 1], place, zone) {
            return Some(prev[i - 1].chunk_id);
        }
        i = i - 1;
    }
    assert(prev@.take(0) =~= Seq::<PlacementChunk>::empty());
    None
}

fn find_key(s: &[PlacementChunk], upto: usize, place: &Name, zone: &Name) -> (r: bool)
    requires
        upto <= s@.len(),
    ensures
        r == has_chunk_key(s@.take(upto as int), (place@, zone@)),
{
    let mut i: usize = 0;
    while i < upto
        invariant
            i <= upto <= s@.len(),
            forall|j: int| 0 <= j < i ==> ckv(#[trigger] s@[j]) != (place@, zone@),
        decreases upto - i,
    {
        if same_key(&s[i], place, zone) {
            assert(s@.take(upto as int)[i as int] == s@[i as int]);
            return true;
        }
        i = i + 1;
    }
    assert forall|j: int| 0 <= j < upto implies ckv(#[trigger] s@.take(upto as int)[j]) != (place@, zone@) by {
        assert(s@.take(upto as int)[j] == s@[j]);
    }
    false
}

/// Compare previous and next chunks by bytes: only the owning place and
/// zone of a changed, new or removed chunk is dirty. Both lists are sorted.
#[verifier::rlimit(40)]
#[verifier::spinoff_prover]
pub fn diff_chunks(prev: &[PlacementChunk], next: &[PlacementChunk]) -> (r: (Vec<ChunkKey>, Vec<ChunkKey>))
    ensures
        keys_sorted(key_views(r.0@)),
        key_views(r.0@).to_multiset() == (changed_keys(prev@, next@) + gone_keys(prev@, next@)).to_multiset(),
        keys_sorted(key_views(r.1@)),
        key_views(r.1@).to_multiset() == kept_keys(prev@, next@).to_multiset(),
{
    let mut dirty: Vec<ChunkKey> = Vec::new();
    let mut reused: Vec<ChunkKey> = Vec::new();
    let mut i: usize = 0;
    while i < next.len()
        invariant
            0 <= i <= next@.len(),
            key_views(dirty@) == changed_keys(prev@, next@.take(i as int)),
            key_views(reused@) == kept_keys(prev@, next@.take(i as int)),
        decreases next@.len() - i,
    {
        assert(next@.take(i as int + 1).drop_last() =~= next@.take(i as int));
        let c = &next[i];
        let key = (Name::of(c.place.as_str()), Name::of(c.zone.as_str()));
        let ghost dv = dirty@;
        let ghost rv = reused@;
        let hit = match lookup_id(prev, &c.place, &c.zone) {
            Some(h) => same_id(&h, &c.chunk_id),
            None => false,
        };
        if hit {
            reused.push(key);
            assert(key_views(reused@) =~= key_views(rv).push(kv(key)));
        } else {
            dirty.push(key);
            assert(key_views(dirty@) =~= key_views(dv).push(kv(key)));
        }
        i = i + 1;
    }
    assert(next@.take(next@.len() as int) =~= next@);
    let ghost changed = key_views(dirty@);
    let mut j: usize = 0;
    while j < prev.len()
        invariant
            0 <= j <= prev@.len(),
            key_views(dirty@) == changed + gone_keys(prev@.take(j as int), next@),
        decreases prev@.len() - j,
    {
        assert(prev@.take(j as int + 1).drop_last() =~= prev@.take(j as int));
        let c = &prev[j];
        let seen = find_key(prev, j, &c.place, &c.zone);
        let later = find_key(next, next.len(), &c.place, &c.zone);
        assert(next@.take(next@.len() as int) =~= next@);
        if !seen && !later {
            let ghost dv = dirty@;
            let key = (Name::of(c.place.as_str()), Name::of(c.zone.as_str()));
            dirty.push(key);
            assert(key_views(dirty@) =~= key_views(dv).push(kv(key)));
        }
        j = j + 1;
    }
    assert(prev@.take(prev@.len() as int) =~= prev@);
    (sort_keys(&dirty), sort_keys(&reused))
}

/// The `KPLM` magic.
pub open spec fn kplm() -> Seq<u8> {
    seq![75u8, 80, 76, 77]
}

/// The `KPLM` magic bytes.
pub fn placement_magic() -> (r: [u8; 4])
    ensures
        r@ == kplm(),
{
    let r: [u8; 4] = [75, 80, 76, 77];
    assert(r@ =~= kplm());
    r
}

/// Why the name field at `o` (two length bytes, then UTF-8 text) is
/// refused, if it is.
pub open spec fn name_fault(b: Seq<u8>, o: int) -> Option<Seq<char>> {
    if o + 2 > b.len() || o + 2 + le16(b, o) > b.len() {
        Some("truncated"@)
    } else if !vstd::utf8::valid_utf8(b.subrange(o + 2, o + 2 + le16(b, o))) {
        Some("utf8"@)
    } else if name_text(b, o).len() == 0 {
        Some("EmptyName"@)
    } else {
        None
    }
}

/// Text of the name field at `o`.
pub open spec fn name_text(b: Seq<u8>, o: int) -> Seq<char> {
    vstd::utf8::decode_utf8(b.subrange(o + 2, o + 2 + le16(b, o)))
}

/// Byte size of the group at `o`: a clip blob adds 32.
pub open spec fn group_size(b: Seq<u8>, o: int) -> int {
    if b[o + 96] == 1 {
        135
    } else {
        103
    }
}

/// Offset of group `j` of the groups starting at `start`.
pub open spec fn group_off(b: Seq<u8>, start: int, j: nat) -> int
    decreases j,
{
    if j == 0 {
        start
    } else {
        let p = group_off(b, start, (j - 1) as nat);
        p + group_size(b, p)
    }
}

/// Why the group at `o` is refused, if it is.
pub open spec fn group_fault(b: Seq<u8>, o: int) -> Option<Seq<char>> {
    if o + 97 > b.len() {
        Some("truncated"@)
    } else if b[o + 96] > 1 {
        Some("clip flag"@)
    } else if o + group_size(b, o) > b.len() {
        Some("truncated"@)
    } else {
        None
    }
}

/// The first fault among groups `j..ng`.
pub open spec fn groups_fault(b: Seq<u8>, start: int, ng: nat, j: nat) -> Option<Seq<char>>
    decreases ng - j,
{
    if j >= ng {
        None
    } else {
        match group_fault(b, group_off(b, start, j)) {
            Some(e) => Some(e),
            None => groups_fault(b, start, ng, j + 1),
        }
    }
}

/// The group at `o` is `g`.
pub open spec fn group_matches(g: InstanceGroup, b: Seq<u8>, o: int) -> bool {
    let sz = group_size(b, o);
    &&& g.id.0@ == b.subrange(o, o + 32)
    &&& g.mesh.0@ == b.subrange(o + 32, o + 64)
    &&& g.material.0@ == b.subrange(o + 64, o + 96)
    &&& (if b[o + 96] == 1 {
        g.clip matches Some(c) && c.0@ == b.subrange(o + 97, o + 129)
    } else {
        g.clip is None
    })
    &&& g.variant == le16(b, o + sz - 6)
    &&& g.count == le32(b, o + sz - 4)
}

/// Offset of the zone name.
pub open spec fn zone_at(b: Seq<u8>) -> int {
    10 + le16(b, 8)
}

/// Offset of the group count.
pub open spec fn groups_at(b: Seq<u8>) -> int {
    zone_at(b) + 2 + le16(b, zone_at(b))
}

/// Number of groups.
pub open spec fn group_count(b: Seq<u8>) -> nat {
    le16(b, groups_at(b)) as nat
}

/// Offset of the record count.
pub open spec fn records_at(b: Seq<u8>) -> int {
    group_off(b, groups_at(b) + 2, group_count(b))
}

/// Number of records.
pub open spec fn record_count(b: Seq<u8>) -> nat {
    le32(b, records_at(b)) as nat
}

/// Offset of the first column.
pub open spec fn columns_at(b: Seq<u8>) -> int {
    records_at(b) + 4
}

/// Column values of record `i` of `n` whose columns start at `c0`: group,
/// the x / y / z / yaw deltas and the scale delta.
pub open spec fn col_group(b: Seq<u8>, c0: int, i: int) -> int {
    le16(b, c0 + 2 * i)
}

/// X delta of record `i`.
pub open spec fn col_dx(b: Seq<u8>, c0: int, n: int, i: int) -> int {
    signed32(le32(b, c0 + 2 * n + 4 * i))
}

/// Y delta of record `i`.
pub open spec fn col_dy(b: Seq<u8>, c0: int, n: int, i: int) -> int {
    signed32(le32(b, c0 + 6 * n + 4 * i))
}

/// Z delta of record `i`.
pub open spec fn col_dz(b: Seq<u8>, c0: int, n: int, i: int) -> int {
    signed32(le32(b, c0 + 10 * n + 4 * i))
}

/// Yaw delta of record `i`.
pub open spec fn col_dyaw(b: Seq<u8>, c0: int, n: int, i: int) -> int {
    signed32(le32(b, c0 + 14 * n + 4 * i))
}

/// Scale delta of record `i`.
pub open spec fn col_dscale(b: Seq<u8>, c0: int, n: int, i: int) -> int {
    signed16(le16(b, c0 + 18 * n + 2 * i))
}

/// The last record of group `g` in `rs`.
pub open spec fn last_in_group(rs: Seq<PlacementRecord>, g: int) -> Option<PlacementRecord>
    decreases rs.len(),
{
    if rs.len() == 0 {
        None
    } else if rs.last().group == g {
        Some(rs.last())
    } else {
        last_in_group(rs.drop_last(), g)
    }
}

/// Record `i` rebuilt from its deltas on top of the last record of its
/// group (absolute when it is the group's first).
pub open spec fn rebuilt(b: Seq<u8>, c0: int, n: int, i: int, prev: Option<PlacementRecord>) -> (IVec3, i32, int) {
    match prev {
        Some(p) => (
            IVec3 {
                x: p.pose.x.wrapping_add(col_dx(b, c0, n, i) as i32),
                y: p.pose.y.wrapping_add(col_dy(b, c0, n, i) as i32),
                z: p.pose.z.wrapping_add(col_dz(b, c0, n, i) as i32),
            },
            p.yaw.0.wrapping_add(col_dyaw(b, c0, n, i) as i32),
            p.scale_permille + col_dscale(b, c0, n, i),
        ),
        None => (
            IVec3 { x: col_dx(b, c0, n, i) as i32, y: col_dy(b, c0, n, i) as i32, z: col_dz(b, c0, n, i) as i32 },
            col_dyaw(b, c0, n, i) as i32,
            col_dscale(b, c0, n, i),
        ),
    }
}

/// The first `i` records decoded, or the first fault among them.
pub open spec fn decode_records(b: Seq<u8>, c0: int, n: int, ng: int, i: nat) -> Result<Seq<PlacementRecord>, Seq<char>>
    decreases i,
{
    if i == 0 {
        Ok(Seq::empty())
    } else {
        match decode_records(b, c0, n, ng, (i - 1) as nat) {
            Err(e) => Err(e),
            Ok(rs) => {
                let k = i - 1;
                let g = col_group(b, c0, k);
                if g >= ng {
                    Err("group index"@)
                } else {
                    let (pose, yaw, scale) = rebuilt(b, c0, n, k, last_in_group(rs, g));
                    if scale < 0 || scale > 65535 {
                        Err("scale"@)
                    } else {
                        Ok(rs.push(PlacementRecord { group: g as u16, pose, yaw: YawMd(yaw), scale_permille: scale as u16 }))
                    }
                }
            },
        }
    }
}

/// Everything before the groups is well formed.
pub open spec fn head_ok(b: Seq<u8>) -> bool {
    &&& b.len() >= 8
    &&& b.subrange(0, 4) == kplm()
    &&& b[4] == 1
    &&& name_fault(b, 8) is None
    &&& name_fault(b, zone_at(b)) is None
    &&& groups_at(b) + 2 <= b.len()
    &&& group_count(b) <= 4096
}

/// Everything but the records themselves is well formed.
pub open spec fn table_ok(b: Seq<u8>) -> bool {
    &&& head_ok(b)
    &&& groups_fault(b, groups_at(b) + 2, group_count(b), 0) is None
    &&& records_at(b) + 4 <= b.len()
    &&& record_count(b) <= 65536
    &&& columns_at(b) + 20 * record_count(b) == b.len()
}

/// Why `b` is not a placement chunk, if it is not.
pub open spec fn chunk_fault(b: Seq<u8>) -> Option<Seq<char>> {
    if b.len() < 8 {
        Some("truncated"@)
    } else if b.subrange(0, 4) != kplm() {
        Some("magic"@)
    } else if b[4] != 1 {
        Some("version "@ + spec_decimal(b[4] as nat))
    } else if name_fault(b, 8) is Some {
        name_fault(b, 8)
    } else if name_fault(b, zone_at(b)) is Some {
        name_fault(b, zone_at(b))
    } else if groups_at(b) + 2 > b.len() {
        Some("truncated"@)
    } else if group_count(b) > 4096 {
        Some("group cap"@)
    } else if groups_fault(b, groups_at(b) + 2, group_count(b), 0) is Some {
        groups_fault(b, groups_at(b) + 2, group_count(b), 0)
    } else if records_at(b) + 4 > b.len() {
        Some("truncated"@)
    } else if record_count(b) > 65536 {
        Some("record cap"@)
    } else if columns_at(b) + 20 * record_count(b) > b.len() {
        Some("truncated"@)
    } else if columns_at(b) + 20 * record_count(b) < b.len() {
        Some("trailing bytes"@)
    } else {
        match decode_records(b, columns_at(b), record_count(b) as int, group_count(b) as int, record_count(b)) {
            Err(e) => Some(e),
            Ok(_) => None,
        }
    }
}

fn placement_error(msg: String) -> (r: CompileError)
    ensures
        r == CompileError::Placement(msg),
{
    CompileError::Placement(msg)
}

/// `std::str::from_utf8`: the text, when the bytes are valid UTF-8.
#[verifier::external_body]
pub(crate) fn utf8_text<'a>(bytes: &'a [u8]) -> (r: Option<&'a str>)
    ensures
        r is Some <==> vstd::utf8::valid_utf8(bytes@),
        r matches Some(s) ==> s@ == vstd::utf8::decode_utf8(bytes@),
{
    match std::str::from_utf8(bytes) {
        Ok(s) => Some(s),
        Err(_) => None,
    }
}

fn take_name(b: &[u8], o: usize) -> (r: Result<Name, CompileError>)
    requires
        o <= b@.len(),
    ensures
        match name_fault(b@, o as int) {
            Some(m) => r matches Err(CompileError::Placement(t)) && t@ == m,
            None => r matches Ok(nm) && nm@ == name_text(b@, o as int),
        },
{
    if b.len() - o < 2 {
        return Err(placement_error(text("truncated")));
    }
    let n = read_u16(b, o) as usize;
    if b.len() - o - 2 < n {
        return Err(placement_error(text("truncated")));
    }
    let bytes = vstd::slice::slice_subrange(b, o + 2, o + 2 + n);
    match utf8_text(bytes) {
        None => Err(placement_error(text("utf8"))),
        Some(s) => match Name::new(s) {
            Ok(nm) => Ok(nm),
            Err(e) => Err(placement_error(e.to_text())),
        },
    }
}

pub(crate) fn read_array32(b: &[u8], o: usize) -> (r: [u8; 32])
    requires
        o + 32 <= b@.len(),
    ensures
        r@ == b@.subrange(o as int, o + 32),
{
    let mut r = [0u8; 32];
    let len = b.len();
    let mut i: usize = 0;
    while i < 32
        invariant
            i <= 32,
            len == b@.len(),
            o + 32 <= b@.len(),
            forall|j: int| 0 <= j < i ==> r@[j] == b@[o + j],
        decreases 32 - i,
    {
        r[i] = b[o + i];
        i = i + 1;
    }
    assert(r@ =~= b@.subrange(o as int, o + 32));
    r
}

fn take_group(b: &[u8], o: usize) -> (r: Result<InstanceGroup, CompileError>)
    requires
        o <= b@.len(),
    ensures
        match group_fault(b@, o as int) {
            Some(m) => r matches Err(CompileError::Placement(t)) && t@ == m,
            None => r matches Ok(g) && group_matches(g, b@, o as int),
        },
{
    if b.len() - o < 97 {
        return Err(placement_error(text("truncated")));
    }
    let flag = b[o + 96];
    if flag > 1 {
        return Err(placement_error(text("clip flag")));
    }
    let size: usize = if flag == 1 {
        135
    } else {
        103
    };
    if b.len() - o < size {
        return Err(placement_error(text("truncated")));
    }
    let id = crate::hash::Hash(read_array32(b, o));
    let mesh = BlobId(read_array32(b, o + 32));
    let material = BlobId(read_array32(b, o + 64));
    let clip = if flag == 1 {
        Some(BlobId(read_array32(b, o + 97)))
    } else {
        None
    };
    let variant = read_u16(b, o + size - 6);
    let count = read_u32(b, o + size - 4);
    Ok(InstanceGroup { id, mesh, material, clip, variant, count })
}

proof fn lemma_records_fault_sticks(b: Seq<u8>, c0: int, n: int, ng: int, i: nat, k: nat)
    requires
        i <= k,
        decode_records(b, c0, n, ng, i) is Err,
    ensures
        decode_records(b, c0, n, ng, k) == decode_records(b, c0, n, ng, i),
    decreases k - i,
{
    if i < k {
        lemma_records_fault_sticks(b, c0, n, ng, i, (k - 1) as nat);
    }
}

/// Decode a `KPLM` chunk: magic, version, place and zone names, instance
/// groups, then the record columns; records are rebuilt per group from
/// their deltas.
#[verifier::rlimit(40)]
#[verifier::spinoff_prover]
/// `c` is what reading the sound chunk bytes `b` yields.
pub open spec fn chunk_read(c: PlacementChunk, b: Seq<u8>) -> bool {
    &&& c.place@ == name_text(b, 8)
    &&& c.zone@ == name_text(b, zone_at(b))
    &&& c.chunk_id.0@ == blake3_digest(b)
    &&& c.bytes@ == b
    &&& c.groups@.len() == group_count(b)
    &&& forall|j: int|
        0 <= j < group_count(b) ==> group_matches(#[trigger] c.groups@[j], b, group_off(b, groups_at(b) + 2, j as nat))
    &&& decode_records(b, columns_at(b), record_count(b) as int, group_count(b) as int, record_count(b)) == Ok::<
        Seq<PlacementRecord>,
        Seq<char>,
    >(c.records@)
}

pub fn decode_chunk(bytes: &[u8]) -> (r: Result<PlacementChunk, CompileError>)
    ensures
        match chunk_fault(bytes@) {
            Some(m) => r matches Err(CompileError::Placement(t)) && t@ == m,
            None => r matches Ok(c) && chunk_read(c, bytes@),
        },
{
    let ghost b = bytes@;
    if bytes.len() < 8 {
        return Err(placement_error(text("truncated")));
    }
    if bytes[0] != 75 || bytes[1] != 80 || bytes[2] != 76 || bytes[3] != 77 {
        proof {
            if b.subrange(0, 4) == kplm() {
                assert(b[0] == b.subrange(0, 4)[0]);
                assert(b[1] == b.subrange(0, 4)[1]);
                assert(b[2] == b.subrange(0, 4)[2]);
                assert(b[3] == b.subrange(0, 4)[3]);
            }
        }
        return Err(placement_error(text("magic")));
    }
    assert(b.subrange(0, 4) =~= kplm());
    let version = bytes[4];
    if version != PLACEMENT_VERSION {
        let mut m = text("version ");
        let d = decimal(version as u64);
        m.append(d.as_str());
        return Err(placement_error(m));
    }
    let place = match take_name(bytes, 8) {
        Ok(n) => n,
        Err(e) => {
            return Err(e);
        },
    };
    let zo: usize = 10 + read_u16(bytes, 8) as usize;
    let zone = match take_name(bytes, zo) {
        Ok(n) => n,
        Err(e) => {
            return Err(e);
        },
    };
    let go: usize = zo + 2 + read_u16(bytes, zo) as usize;
    if bytes.len() - go < 2 {
        return Err(placement_error(text("truncated")));
    }
    let ng = read_u16(bytes, go) as usize;
    if ng > MAX_INSTANCE_GROUPS {
        return Err(placement_error(text("group cap")));
    }
    let ghost gs = go + 2;
    let len = bytes.len();
    assert(head_ok(b));
    let mut groups: Vec<InstanceGroup> = Vec::new();
    let mut off: usize = go + 2;
    let mut j: usize = 0;
    while j < ng
        invariant
            b == bytes@,
            len == b.len(),
            head_ok(b),
            gs == groups_at(b) + 2,
            ng == group_count(b),
            0 <= j <= ng,
            off <= b.len(),
            off == group_off(b, gs, j as nat),
            groups_fault(b, gs, ng as nat, 0) == groups_fault(b, gs, ng as nat, j as nat),
            groups@.len() == j,
            forall|k: int| 0 <= k < j ==> group_matches(#[trigger] groups@[k], b, group_off(b, gs, k as nat)),
        decreases ng - j,
    {
        let g = match take_group(bytes, off) {
            Ok(g) => g,
            Err(e) => {
                return Err(e);
            },
        };
        groups.push(g);
        off = off + if bytes[off + 96] == 1 {
            135
        } else {
            103
        };
        j = j + 1;
    }
    assert(off == records_at(b));
    if bytes.len() - off < 4 {
        return Err(placement_error(text("truncated")));
    }
    let n = read_u32(bytes, off) as usize;
    if n > MAX_PLACEMENT_RECORDS {
        return Err(placement_error(text("record cap")));
    }
    let c0 = off + 4;
    if bytes.len() - c0 < 20 * n {
        return Err(placement_error(text("truncated")));
    }
    if bytes.len() - c0 > 20 * n {
        return Err(placement_error(text("trailing bytes")));
    }
    assert(table_ok(b));
    let mut prev: Vec<Option<PlacementRecord>> = Vec::new();
    let mut k: usize = 0;
    while k < ng
        invariant
            0 <= k <= ng,
            prev@.len() == k,
            forall|q: int| 0 <= q < k ==> (#[trigger] prev@[q]) is None,
        decreases ng - k,
    {
        prev.push(None);
        k = k + 1;
    }
    let mut records: Vec<PlacementRecord> = Vec::new();
    let mut i: usize = 0;
    while i < n
        invariant
            b == bytes@,
            len == b.len(),
            table_ok(b),
            c0 == columns_at(b),
            n == record_count(b),
            ng == group_count(b),
            c0 + 20 * n == b.len(),
            0 <= i <= n,
            prev@.len() == ng,
            decode_records(b, c0 as int, n as int, ng as int, i as nat) == Ok::<Seq<PlacementRecord>, Seq<char>>(
                records@,
            ),
            forall|q: int| 0 <= q < ng ==> (#[trigger] prev@[q]) == last_in_group(records@, q),
        decreases n - i,
    {
        let g = read_u16(bytes, c0 + 2 * i);
        if g as usize >= ng {
            proof {
                lemma_records_fault_sticks(b, c0 as int, n as int, ng as int, (i + 1) as nat, n as nat);
            }
            return Err(placement_error(text("group index")));
        }
        let dx = crate::bytes::read_i32(bytes, c0 + 2 * n + 4 * i);
        let dy = crate::bytes::read_i32(bytes, c0 + 6 * n + 4 * i);
        let dz = crate::bytes::read_i32(bytes, c0 + 10 * n + 4 * i);
        let dyaw = crate::bytes::read_i32(bytes, c0 + 14 * n + 4 * i);
        let dscale = crate::bytes::read_i16(bytes, c0 + 18 * n + 2 * i);
        let (pose, yaw, scale): (IVec3, i32, i32) = match prev[g as usize] {
            Some(p) => (
                IVec3 { x: p.pose.x.wrapping_add(dx), y: p.pose.y.wrapping_add(dy), z: p.pose.z.wrapping_add(dz) },
                p.yaw.0.wrapping_add(dyaw),
                (p.scale_permille as i32) + (dscale as i32),
            ),
            None => (IVec3 { x: dx, y: dy, z: dz }, dyaw, dscale as i32),
        };
        if scale < 0 || scale > 65535 {
            proof {
                lemma_records_fault_sticks(b, c0 as int, n as int, ng as int, (i + 1) as nat, n as nat);
            }
            return Err(placement_error(text("scale")));
        }
        let rec = PlacementRecord { group: g, pose, yaw: YawMd(yaw), scale_permille: scale as u16 };
        let ghost before = records@;
        records.push(rec);
        prev.set(g as usize, Some(rec));
        proof {
            assert(records@.drop_last() == before);
            assert forall|q: int| 0 <= q < ng implies (#[trigger] prev@[q]) == last_in_group(records@, q) by {
                if q != g {
                    assert(last_in_group(records@, q) == last_in_group(before, q));
                }
            }
        }
        i = i + 1;
    }
    Ok(
        PlacementChunk {
            place,
            zone,
            chunk_id: hash_bytes(bytes),
            bytes: vstd::slice::slice_to_vec(bytes),
            groups,
            records,
        },
    )
}

/// Two optional clip blobs are the same.
pub open spec fn same_clip(a: Option<BlobId>, b: Option<BlobId>) -> bool {
    match (a, b) {
        (Some(x), Some(y)) => x.0@ == y.0@,
        (None, None) => true,
        _ => false,
    }
}

/// Two placements share a binding: mesh, material, clip and variant.
pub open spec fn same_binding(a: RawPlacement, b: RawPlacement) -> bool {
    a.mesh.0@ == b.mesh.0@ && a.material.0@ == b.material.0@ && same_clip(a.clip, b.clip) && a.variant == b.variant
}

/// The first binding at or after `k` in `gs` that `r` shares.
pub open spec fn find_binding(gs: Seq<RawPlacement>, r: RawPlacement, k: int) -> Option<int>
    decreases gs.len() - k,
{
    if k < 0 || k >= gs.len() {
        None
    } else if same_binding(gs[k], r) {
        Some(k)
    } else {
        find_binding(gs, r, k + 1)
    }
}

/// Distinct bindings of `rows`, one representative each, in order of first
/// appearance: the instance groups.
pub open spec fn bindings(rows: Seq<RawPlacement>) -> Seq<RawPlacement>
    decreases rows.len(),
{
    if rows.len() == 0 {
        Seq::empty()
    } else {
        let rest = bindings(rows.drop_last());
        if find_binding(rest, rows.last(), 0) is Some {
            rest
        } else {
            rest.push(rows.last())
        }
    }
}

/// The record of `r` in group `g`.
pub open spec fn record_of(r: RawPlacement, g: int) -> PlacementRecord {
    PlacementRecord { group: g as u16, pose: r.pose, yaw: r.yaw, scale_permille: r.scale_permille }
}

/// Each row as a record of its group, in row order.
pub open spec fn tagged(rows: Seq<RawPlacement>) -> Seq<PlacementRecord> {
    Seq::new(rows.len(), |k: int| record_of(rows[k], find_binding(bindings(rows), rows[k], 0).unwrap()))
}

/// Record order: group, then x, y, z, yaw and scale.
pub open spec fn rec_lt(a: PlacementRecord, b: PlacementRecord) -> bool {
    if a.group != b.group {
        a.group < b.group
    } else if a.pose.x != b.pose.x {
        a.pose.x < b.pose.x
    } else if a.pose.y != b.pose.y {
        a.pose.y < b.pose.y
    } else if a.pose.z != b.pose.z {
        a.pose.z < b.pose.z
    } else if a.yaw.0 != b.yaw.0 {
        a.yaw.0 < b.yaw.0
    } else {
        a.scale_permille < b.scale_permille
    }
}

/// Where `x` goes in `s`: after every record it does not sort before.
pub open spec fn insert_pos(s: Seq<PlacementRecord>, x: PlacementRecord, k: int) -> int
    decreases s.len() - k,
{
    if k < 0 || k >= s.len() || rec_lt(x, s[k]) {
        k
    } else {
        insert_pos(s, x, k + 1)
    }
}

/// Records in record order (a stable insertion of each in turn).
pub open spec fn sort_recs(s: Seq<PlacementRecord>) -> Seq<PlacementRecord>
    decreases s.len(),
{
    if s.len() == 0 {
        s
    } else {
        let t = sort_recs(s.drop_last());
        t.insert(insert_pos(t, s.last(), 0), s.last())
    }
}

/// Records of group `g`.
pub open spec fn group_size_of(rs: Seq<PlacementRecord>, g: int) -> nat
    decreases rs.len(),
{
    if rs.len() == 0 {
        0
    } else {
        group_size_of(rs.drop_last(), g) + if rs.last().group == g {
            1nat
        } else {
            0nat
        }
    }
}

/// Bytes hashed for a group's identity.
pub open spec fn binding_bytes(r: RawPlacement) -> Seq<u8> {
    r.mesh.0@ + r.material.0@ + match r.clip {
        Some(c) => seq![1u8] + c.0@,
        None => seq![0u8],
    } + u16_bytes(r.variant as int)
}

/// The chunk's groups for `rows`, before counting: binding and identity.
pub open spec fn group_is(g: InstanceGroup, r: RawPlacement, recs: Seq<PlacementRecord>, j: int) -> bool {
    &&& g.id.0@ == blake3_digest(binding_bytes(r))
    &&& g.mesh == r.mesh
    &&& g.material == r.material
    &&& g.clip == r.clip
    &&& g.variant == r.variant
    &&& g.count == group_size_of(recs, j)
}

/// The previous record of record `i`'s group.
pub open spec fn prev_of(recs: Seq<PlacementRecord>, i: int) -> Option<PlacementRecord> {
    last_in_group(recs.take(i), recs[i].group as int)
}

/// Scale delta of record `i` (absolute for a group's first record).
pub open spec fn scale_delta(recs: Seq<PlacementRecord>, i: int) -> int {
    match prev_of(recs, i) {
        Some(p) => recs[i].scale_permille - p.scale_permille,
        None => recs[i].scale_permille as int,
    }
}

/// Coordinate delta of record `i` on axis `axis` (0 x, 1 y, 2 z, 3 yaw).
pub open spec fn axis_value(r: PlacementRecord, axis: int) -> i32 {
    if axis == 0 {
        r.pose.x
    } else if axis == 1 {
        r.pose.y
    } else if axis == 2 {
        r.pose.z
    } else {
        r.yaw.0
    }
}

/// Wrapped delta of record `i` on `axis` (absolute for a group's first record).
pub open spec fn axis_delta(recs: Seq<PlacementRecord>, i: int, axis: int) -> i32 {
    match prev_of(recs, i) {
        Some(p) => axis_value(recs[i], axis).wrapping_sub(axis_value(p, axis)),
        None => axis_value(recs[i], axis),
    }
}

/// Little-endian 16-bit column.
pub open spec fn col16(v: Seq<int>) -> Seq<u8>
    decreases v.len(),
{
    if v.len() == 0 {
        Seq::empty()
    } else {
        col16(v.drop_last()) + u16_bytes(v.last())
    }
}

/// Little-endian 32-bit column.
pub open spec fn col32(v: Seq<int>) -> Seq<u8>
    decreases v.len(),
{
    if v.len() == 0 {
        Seq::empty()
    } else {
        col32(v.drop_last()) + u32_bytes(v.last())
    }
}

/// Group column of the records.
pub open spec fn group_col(recs: Seq<PlacementRecord>) -> Seq<int> {
    Seq::new(recs.len(), |i: int| recs[i].group as int)
}

/// Delta column of `axis`, as 32-bit patterns.
pub open spec fn axis_col(recs: Seq<PlacementRecord>, axis: int) -> Seq<int> {
    Seq::new(recs.len(), |i: int| pattern32(axis_delta(recs, i, axis) as int))
}

/// Scale-delta column, as 16-bit patterns.
pub open spec fn scale_col(recs: Seq<PlacementRecord>) -> Seq<int> {
    Seq::new(recs.len(), |i: int| pattern16(scale_delta(recs, i)))
}

/// A name field: its UTF-8 length, then its UTF-8 bytes.
pub open spec fn name_field(t: Seq<char>) -> Seq<u8> {
    u16_bytes(vstd::utf8::encode_utf8(t).len() as int) + vstd::utf8::encode_utf8(t)
}

/// Bytes of one group.
pub open spec fn group_bytes(g: InstanceGroup) -> Seq<u8> {
    g.id.0@ + g.mesh.0@ + g.material.0@ + match g.clip {
        Some(c) => seq![1u8] + c.0@,
        None => seq![0u8],
    } + u16_bytes(g.variant as int) + u32_bytes(g.count as int)
}

/// Bytes of the groups, in order.
pub open spec fn groups_bytes(gs: Seq<InstanceGroup>) -> Seq<u8>
    decreases gs.len(),
{
    if gs.len() == 0 {
        Seq::empty()
    } else {
        groups_bytes(gs.drop_last()) + group_bytes(gs.last())
    }
}

/// The encoded chunk: magic, version and padding, place and zone names,
/// groups, the record count, then the group, x, y, z, yaw and scale columns.
pub open spec fn chunk_bytes(place: Seq<char>, zone: Seq<char>, gs: Seq<InstanceGroup>, recs: Seq<PlacementRecord>) -> Seq<u8> {
    kplm() + seq![1u8, 0, 0, 0] + name_field(place) + name_field(zone) + u16_bytes(gs.len() as int) + groups_bytes(gs)
        + u32_bytes(recs.len() as int) + col16(group_col(recs)) + col32(axis_col(recs, 0)) + col32(axis_col(recs, 1))
        + col32(axis_col(recs, 2)) + col32(axis_col(recs, 3)) + col16(scale_col(recs))
}

/// Why `rows` cannot be encoded, if they cannot.
pub open spec fn encode_fault(place: Seq<char>, zone: Seq<char>, rows: Seq<RawPlacement>) -> Option<Seq<char>> {
    if rows.len() > 65536 {
        Some("record cap"@)
    } else if bindings(rows).len() > 4096 {
        Some("group cap"@)
    } else if exists|i: int|
        0 <= i < rows.len() && !(-32768 <= #[trigger] scale_delta(sort_recs(tagged(rows)), i) < 32768) {
        Some("scale delta overflow"@)
    } else if vstd::utf8::encode_utf8(place).len() > 65535 || vstd::utf8::encode_utf8(zone).len() > 65535 {
        Some("u16 length"@)
    } else {
        None
    }
}

/// `c` is the chunk `encode_chunk` makes of `rows` for `place` and `zone`.
pub open spec fn encoded(c: PlacementChunk, place: Seq<char>, zone: Seq<char>, rows: Seq<RawPlacement>) -> bool {
    &&& c.place@ == place
    &&& c.zone@ == zone
    &&& c.records@ == sort_recs(tagged(rows))
    &&& c.groups@.len() == bindings(rows).len()
    &&& records_fit(c.records@, c.groups@.len() as int)
    &&& forall|j: int| 0 <= j < c.groups@.len() ==> group_is(#[trigger] c.groups@[j], bindings(rows)[j], c.records@, j)
    &&& c.bytes@ == chunk_bytes(place, zone, c.groups@, c.records@)
    &&& c.chunk_id.0@ == blake3_digest(c.bytes@)
}

fn same_bytes32(a: &[u8; 32], b: &[u8; 32]) -> (r: bool)
    ensures
        r == (a@ == b@),
{
    let mut i: usize = 0;
    while i < 32
        invariant
            i <= 32,
            forall|j: int| 0 <= j < i ==> a@[j] == b@[j],
        decreases 32 - i,
    {
        if a[i] != b[i] {
            return false;
        }
        i = i + 1;
    }
    assert(a@ =~= b@);
    true
}

fn binding_matches(g: &InstanceGroup, r: &RawPlacement) -> (b: bool)
    ensures
        b == (g.mesh.0@ == r.mesh.0@ && g.material.0@ == r.material.0@ && same_clip(g.clip, r.clip) && g.variant
            == r.variant),
{
    let clip_same = match (&g.clip, &r.clip) {
        (Some(x), Some(y)) => same_bytes32(&x.0, &y.0),
        (None, None) => true,
        _ => false,
    };
    same_bytes32(&g.mesh.0, &r.mesh.0) && same_bytes32(&g.material.0, &r.material.0) && clip_same && g.variant
        == r.variant
}

fn group_id(row: &RawPlacement) -> (r: crate::hash::Hash)
    ensures
        r.0@ == blake3_digest(binding_bytes(*row)),
{
    let mut buf: Vec<u8> = Vec::new();
    append_bytes(&mut buf, row.mesh.0.as_slice());
    append_bytes(&mut buf, row.material.0.as_slice());
    match &row.clip {
        Some(c) => {
            buf.push(1u8);
            append_bytes(&mut buf, c.0.as_slice());
        },
        None => {
            buf.push(0u8);
        },
    }
    push_u16(&mut buf, row.variant);
    assert(buf@ =~= binding_bytes(*row));
    hash_bytes(buf.as_slice())
}

proof fn lemma_find_push(s: Seq<RawPlacement>, x: RawPlacement, y: RawPlacement, k: int)
    requires
        0 <= k,
    ensures
        find_binding(s, x, k) is Some ==> find_binding(s.push(y), x, k) == find_binding(s, x, k),
        find_binding(s, x, k) is None && same_binding(y, x) && k <= s.len() ==> find_binding(s.push(y), x, k) == Some(
            s.len() as int,
        ),
    decreases s.len() - k,
{
    if k < s.len() {
        assert(s.push(y)[k] == s[k]);
        lemma_find_push(s, x, y, k + 1);
    } else if k == s.len() {
        assert(s.push(y)[k] == y);
    }
}

proof fn lemma_find_found(s: Seq<RawPlacement>, x: RawPlacement, k: int)
    requires
        find_binding(s, x, k) matches Some(i),
    ensures
        find_binding(s, x, k) matches Some(i) && k <= i < s.len() && same_binding(s[i], x),
    decreases s.len() - k,
{
    if !same_binding(s[k], x) {
        lemma_find_found(s, x, k + 1);
    }
}

proof fn lemma_bindings_grow(rows: Seq<RawPlacement>, k: int)
    requires
        0 <= k < rows.len(),
    ensures
        bindings(rows.take(k + 1)) == bindings(rows.take(k)) || bindings(rows.take(k + 1)) == bindings(rows.take(
            k,
        )).push(rows[k]),
        bindings(rows.take(k)).len() <= bindings(rows.take(k + 1)).len(),
{
    assert(rows.take(k + 1).drop_last() =~= rows.take(k));
}

proof fn lemma_bindings_len_mono(rows: Seq<RawPlacement>, k: int, m: int)
    requires
        0 <= k <= m <= rows.len(),
    ensures
        bindings(rows.take(k)).len() <= bindings(rows.take(m)).len(),
    decreases m - k,
{
    if k < m {
        lemma_bindings_grow(rows, m - 1);
        lemma_bindings_len_mono(rows, k, m - 1);
    }
}

fn find_group(groups: &Vec<InstanceGroup>, row: &RawPlacement, Ghost(reps): Ghost<Seq<RawPlacement>>) -> (r: Option<usize>)
    requires
        groups@.len() == reps.len(),
        forall|j: int|
            0 <= j < reps.len() ==> (#[trigger] groups@[j]).mesh == reps[j].mesh && groups@[j].material
                == reps[j].material && groups@[j].clip == reps[j].clip && groups@[j].variant == reps[j].variant,
    ensures
        match r {
            Some(j) => find_binding(reps, *row, 0) == Some(j as int),
            None => find_binding(reps, *row, 0) is None,
        },
{
    let mut j: usize = 0;
    while j < groups.len()
        invariant
            0 <= j <= groups@.len(),
            groups@.len() == reps.len(),
            forall|q: int|
                0 <= q < reps.len() ==> (#[trigger] groups@[q]).mesh == reps[q].mesh && groups@[q].material
                    == reps[q].material && groups@[q].clip == reps[q].clip && groups@[q].variant == reps[q].variant,
            find_binding(reps, *row, 0) == find_binding(reps, *row, j as int),
        decreases groups@.len() - j,
    {
        if binding_matches(&groups[j], row) {
            return Some(j);
        }
        j = j + 1;
    }
    None
}

fn rec_less(a: &PlacementRecord, b: &PlacementRecord) -> (r: bool)
    ensures
        r == rec_lt(*a, *b),
{
    if a.group != b.group {
        a.group < b.group
    } else if a.pose.x != b.pose.x {
        a.pose.x < b.pose.x
    } else if a.pose.y != b.pose.y {
        a.pose.y < b.pose.y
    } else if a.pose.z != b.pose.z {
        a.pose.z < b.pose.z
    } else if a.yaw.0 != b.yaw.0 {
        a.yaw.0 < b.yaw.0
    } else {
        a.scale_permille < b.scale_permille
    }
}

fn sort_records(v: &Vec<PlacementRecord>) -> (r: Vec<PlacementRecord>)
    ensures
        r@ == sort_recs(v@),
{
    let mut out: Vec<PlacementRecord> = Vec::new();
    let mut k: usize = 0;
    assert(v@.take(0) =~= Seq::<PlacementRecord>::empty());
    while k < v.len()
        invariant
            0 <= k <= v@.len(),
            out@ == sort_recs(v@.take(k as int)),
        decreases v@.len() - k,
    {
        let x = v[k];
        let mut p: usize = 0;
        while p < out.len() && !rec_less(&x, &out[p])
            invariant
                0 <= p <= out@.len(),
                insert_pos(out@, x, 0) == insert_pos(out@, x, p as int),
            decreases out@.len() - p,
        {
            p = p + 1;
        }
        assert(v@.take(k as int + 1).drop_last() =~= v@.take(k as int));
        out.insert(p, x);
        k = k + 1;
    }
    assert(v@.take(v@.len() as int) =~= v@);
    out
}

fn name_bytes_fit(n: &Name) -> (r: bool)
    ensures
        r == (vstd::utf8::encode_utf8(n@).len() <= 65535),
{
    n.as_str().as_bytes().len() <= 65535
}

fn put_name(buf: &mut Vec<u8>, n: &Name)
    requires
        vstd::utf8::encode_utf8(n@).len() <= 65535,
    ensures
        final(buf)@ == old(buf)@ + name_field(n@),
{
    let b = n.as_str().as_bytes();
    push_u16(buf, b.len() as u16);
    append_bytes(buf, b);
    assert(final(buf)@ =~= old(buf)@ + name_field(n@));
}

fn put_group(buf: &mut Vec<u8>, g: &InstanceGroup)
    ensures
        final(buf)@ == old(buf)@ + group_bytes(*g),
{
    let ghost start = buf@;
    append_bytes(buf, g.id.0.as_slice());
    append_bytes(buf, g.mesh.0.as_slice());
    append_bytes(buf, g.material.0.as_slice());
    match &g.clip {
        Some(c) => {
            buf.push(1u8);
            append_bytes(buf, c.0.as_slice());
        },
        None => {
            buf.push(0u8);
        },
    }
    push_u16(buf, g.variant);
    push_u32(buf, g.count);
    assert(final(buf)@ =~= start + group_bytes(*g));
}

fn scale_error() -> (r: CompileError)
    ensures
        r matches CompileError::Placement(t) && t@ == "scale delta overflow"@,
{
    placement_error(text("scale delta overflow"))
}

/// Encode one place/zone chunk: group rows by binding in order of first
/// appearance, sort the records by group then pose, yaw and scale, and store
/// each group's transforms as wrapped deltas from its previous record.
#[verifier::rlimit(60)]
#[verifier::spinoff_prover]
pub fn encode_chunk(place: &Name, zone: &Name, rows: &[RawPlacement]) -> (r: Result<PlacementChunk, CompileError>)
    ensures
        match encode_fault(place@, zone@, rows@) {
            Some(m) => r matches Err(CompileError::Placement(t)) && t@ == m,
            None => r matches Ok(c) && encoded(c, place@, zone@, rows@),
        },
{
    if rows.len() > MAX_PLACEMENT_RECORDS {
        return Err(placement_error(text("record cap")));
    }
    let mut groups: Vec<InstanceGroup> = Vec::new();
    let mut tags: Vec<u16> = Vec::new();
    let ghost mut reps: Seq<RawPlacement> = Seq::empty();
    let mut k: usize = 0;
    assert(rows@.take(0) =~= Seq::<RawPlacement>::empty());
    while k < rows.len()
        invariant
            rows@.len() <= 65536,
            0 <= k <= rows@.len(),
            reps == bindings(rows@.take(k as int)),
            groups@.len() == reps.len(),
            reps.len() <= 4096,
            forall|j: int|
                0 <= j < reps.len() ==> (#[trigger] groups@[j]).mesh == reps[j].mesh && groups@[j].material
                    == reps[j].material && groups@[j].clip == reps[j].clip && groups@[j].variant == reps[j].variant
                    && groups@[j].id.0@ == blake3_digest(binding_bytes(reps[j])) && groups@[j].count == 0,
            tags@.len() == k,
            forall|q: int| 0 <= q < k ==> find_binding(reps, rows@[q], 0) == Some(#[trigger] tags@[q] as int),
        decreases rows@.len() - k,
    {
        let row = &rows[k];
        proof {
            lemma_bindings_grow(rows@, k as int);
            assert(rows@.take(k as int + 1).drop_last() =~= rows@.take(k as int));
            assert(rows@.take(k as int + 1).last() == rows@[k as int]);
        }
        let idx: u16 = match find_group(&groups, row, Ghost(reps)) {
            Some(j) => {
                proof {
                    lemma_find_found(reps, *row, 0);
                    assert(bindings(rows@.take(k as int + 1)) == reps);
                }
                j as u16
            },
            None => {
                if groups.len() >= MAX_INSTANCE_GROUPS {
                    proof {
                        lemma_bindings_len_mono(rows@, k as int + 1, rows@.len() as int);
                        assert(rows@.take(rows@.len() as int) =~= rows@);
                    }
                    return Err(placement_error(text("group cap")));
                }
                let id = group_id(row);
                let ghost before = reps;
                groups.push(InstanceGroup {
                    id,
                    mesh: row.mesh,
                    material: row.material,
                    clip: row.clip,
                    variant: row.variant,
                    count: 0,
                });
                proof {
                    reps = reps.push(*row);
                    assert forall|q: int| 0 <= q < k implies find_binding(reps, rows@[q], 0) == Some(
                        #[trigger] tags@[q] as int,
                    ) by {
                        lemma_find_push(before, rows@[q], *row, 0);
                    }
                    lemma_find_push(before, *row, *row, 0);
                    assert(bindings(rows@.take(k as int + 1)) == reps);
                }
                (groups.len() - 1) as u16
            },
        };
        tags.push(idx);
        k = k + 1;
    }
    assert(rows@.take(rows@.len() as int) =~= rows@);
    let ng = groups.len();
    let mut tagged_recs: Vec<PlacementRecord> = Vec::new();
    let mut q: usize = 0;
    while q < rows.len()
        invariant
            0 <= q <= rows@.len(),
            tags@.len() == rows@.len(),
            reps == bindings(rows@),
            forall|t: int| 0 <= t < rows@.len() ==> find_binding(reps, rows@[t], 0) == Some(#[trigger] tags@[t] as int),
            tagged_recs@ == tagged(rows@).take(q as int),
        decreases rows@.len() - q,
    {
        let row = &rows[q];
        tagged_recs.push(
            PlacementRecord { group: tags[q], pose: row.pose, yaw: row.yaw, scale_permille: row.scale_permille },
        );
        q = q + 1;
        assert(tagged_recs@ =~= tagged(rows@).take(q as int));
    }
    assert(tagged(rows@).take(rows@.len() as int) =~= tagged(rows@));
    let records = sort_records(&tagged_recs);
    let ghost recs = records@;
    let n = records.len();
    proof {
        lemma_sort_recs_len(tagged(rows@));
        assert forall|t: int| 0 <= t < n implies (#[trigger] recs[t]).group < ng by {
            let e = recs[t];
            assert(recs.contains(e));
            vstd::seq_lib::to_multiset_contains(recs, e);
            vstd::seq_lib::to_multiset_contains(tagged(rows@), e);
            let u = choose|u: int| 0 <= u < tagged(rows@).len() && tagged(rows@)[u] == e;
            assert(find_binding(reps, rows@[u], 0) == Some(tags@[u] as int));
            lemma_find_found(reps, rows@[u], 0);
        }
    }
    let mut prev: Vec<Option<PlacementRecord>> = Vec::new();
    let mut counts: Vec<u32> = Vec::new();
    let mut z: usize = 0;
    while z < ng
        invariant
            0 <= z <= ng,
            prev@.len() == z,
            counts@.len() == z,
            forall|t: int| 0 <= t < z ==> (#[trigger] prev@[t]) is None,
            forall|t: int| 0 <= t < z ==> (#[trigger] counts@[t]) == 0,
        decreases ng - z,
    {
        prev.push(None);
        counts.push(0);
        z = z + 1;
    }
    let mut gcol: Vec<u8> = Vec::new();
    let mut xcol: Vec<u8> = Vec::new();
    let mut ycol: Vec<u8> = Vec::new();
    let mut zcol: Vec<u8> = Vec::new();
    let mut yawcol: Vec<u8> = Vec::new();
    let mut scol: Vec<u8> = Vec::new();
    let mut i: usize = 0;
    assert(recs.take(0) =~= Seq::<PlacementRecord>::empty());
    while i < n
        invariant
            recs == records@,
            recs == sort_recs(tagged(rows@)),
            rows@.len() <= 65536,
            bindings(rows@).len() <= 4096,
            n == rows@.len(),
            n == recs.len(),
            n <= 65536,
            ng == groups@.len(),
            forall|t: int| 0 <= t < n ==> (#[trigger] recs[t]).group < ng,
            0 <= i <= n,
            prev@.len() == ng,
            counts@.len() == ng,
            forall|t: int| 0 <= t < ng ==> (#[trigger] prev@[t]) == last_in_group(recs.take(i as int), t),
            forall|t: int| 0 <= t < ng ==> (#[trigger] counts@[t]) == group_size_of(recs.take(i as int), t),
            forall|t: int| 0 <= t < ng ==> (#[trigger] counts@[t]) <= i,
            forall|t: int| 0 <= t < i ==> -32768 <= #[trigger] scale_delta(recs, t) < 32768,
            gcol@ == col16(group_col(recs).take(i as int)),
            xcol@ == col32(axis_col(recs, 0).take(i as int)),
            ycol@ == col32(axis_col(recs, 1).take(i as int)),
            zcol@ == col32(axis_col(recs, 2).take(i as int)),
            yawcol@ == col32(axis_col(recs, 3).take(i as int)),
            scol@ == col16(scale_col(recs).take(i as int)),
        decreases n - i,
    {
        let r = records[i];
        let g = r.group as usize;
        let (dx, dy, dz, dyaw, ds): (i32, i32, i32, i32, i32) = match prev[g] {
            Some(p) => (
                r.pose.x.wrapping_sub(p.pose.x),
                r.pose.y.wrapping_sub(p.pose.y),
                r.pose.z.wrapping_sub(p.pose.z),
                r.yaw.0.wrapping_sub(p.yaw.0),
                (r.scale_permille as i32) - (p.scale_permille as i32),
            ),
            None => (r.pose.x, r.pose.y, r.pose.z, r.yaw.0, r.scale_permille as i32),
        };
        assert(prev_of(recs, i as int) == prev@[g as int]);
        if ds < -32768 || ds > 32767 {
            proof {
                assert(!(-32768 <= scale_delta(sort_recs(tagged(rows@)), i as int) < 32768));
            }
            return Err(scale_error());
        }
        proof {
            assert(group_col(recs).take(i as int + 1).drop_last() =~= group_col(recs).take(i as int));
            assert(axis_col(recs, 0).take(i as int + 1).drop_last() =~= axis_col(recs, 0).take(i as int));
            assert(axis_col(recs, 1).take(i as int + 1).drop_last() =~= axis_col(recs, 1).take(i as int));
            assert(axis_col(recs, 2).take(i as int + 1).drop_last() =~= axis_col(recs, 2).take(i as int));
            assert(axis_col(recs, 3).take(i as int + 1).drop_last() =~= axis_col(recs, 3).take(i as int));
            assert(scale_col(recs).take(i as int + 1).drop_last() =~= scale_col(recs).take(i as int));
            assert(recs.take(i as int + 1).drop_last() =~= recs.take(i as int));
        }
        push_u16(&mut gcol, r.group);
        push_u32(&mut xcol, i32_pattern(dx));
        push_u32(&mut ycol, i32_pattern(dy));
        push_u32(&mut zcol, i32_pattern(dz));
        push_u32(&mut yawcol, i32_pattern(dyaw));
        push_u16(&mut scol, i16_pattern(ds as i16));
        prev.set(g, Some(r));
        let c = counts[g];
        counts.set(g, c + 1);
        i = i + 1;
    }
    assert(group_col(recs).take(n as int) =~= group_col(recs));
    assert(axis_col(recs, 0).take(n as int) =~= axis_col(recs, 0));
    assert(axis_col(recs, 1).take(n as int) =~= axis_col(recs, 1));
    assert(axis_col(recs, 2).take(n as int) =~= axis_col(recs, 2));
    assert(axis_col(recs, 3).take(n as int) =~= axis_col(recs, 3));
    assert(scale_col(recs).take(n as int) =~= scale_col(recs));
    assert(recs.take(n as int) =~= recs);
    if !name_bytes_fit(place) || !name_bytes_fit(zone) {
        return Err(placement_error(text("u16 length")));
    }
    let mut final_groups: Vec<InstanceGroup> = Vec::new();
    let mut buf: Vec<u8> = Vec::new();
    buf.push(75u8);
    buf.push(80u8);
    buf.push(76u8);
    buf.push(77u8);
    buf.push(PLACEMENT_VERSION);
    buf.push(0u8);
    buf.push(0u8);
    buf.push(0u8);
    put_name(&mut buf, place);
    put_name(&mut buf, zone);
    push_u16(&mut buf, ng as u16);
    let ghost head = buf@;
    let mut j: usize = 0;
    while j < ng
        invariant
            0 <= j <= ng,
            ng == groups@.len(),
            counts@.len() == ng,
            final_groups@.len() == j,
            forall|t: int|
                0 <= t < j ==> #[trigger] final_groups@[t] == (InstanceGroup { count: counts@[t], ..groups@[t] }),
            buf@ == head + groups_bytes(final_groups@),
        decreases ng - j,
    {
        let g = InstanceGroup { count: counts[j], ..groups[j] };
        put_group(&mut buf, &g);
        let ghost fg = final_groups@;
        final_groups.push(g);
        assert(final_groups@.drop_last() =~= fg);
        j = j + 1;
    }
    push_u32(&mut buf, n as u32);
    append_bytes(&mut buf, gcol.as_slice());
    append_bytes(&mut buf, xcol.as_slice());
    append_bytes(&mut buf, ycol.as_slice());
    append_bytes(&mut buf, zcol.as_slice());
    append_bytes(&mut buf, yawcol.as_slice());
    append_bytes(&mut buf, scol.as_slice());
    let chunk_id = hash_bytes(buf.as_slice());
    proof {
        assert(buf@ =~= chunk_bytes(place@, zone@, final_groups@, recs));
    }
    Ok(PlacementChunk {
        place: Name::of(place.as_str()),
        zone: Name::of(zone.as_str()),
        chunk_id,
        bytes: buf,
        groups: final_groups,
        records,
    })
}

proof fn lemma_sort_recs_len(s: Seq<PlacementRecord>)
    ensures
        sort_recs(s).len() == s.len(),
        sort_recs(s).to_multiset() == s.to_multiset(),
    decreases s.len(),
{
    if s.len() > 0 {
        lemma_sort_recs_len(s.drop_last());
        let t = sort_recs(s.drop_last());
        lemma_insert_pos_range(t, s.last(), 0);
        vstd::seq_lib::to_multiset_build(s.drop_last(), s.last());
        assert(s.drop_last().push(s.last()) =~= s);
    }
}

proof fn lemma_insert_pos_range(s: Seq<PlacementRecord>, x: PlacementRecord, k: int)
    requires
        0 <= k <= s.len(),
    ensures
        k <= insert_pos(s, x, k) <= s.len(),
    decreases s.len() - k,
{
    if k < s.len() && !rec_lt(x, s[k]) {
        lemma_insert_pos_range(s, x, k + 1);
    }
}

proof fn lemma_col16_len(v: Seq<int>)
    ensures
        col16(v).len() == 2 * v.len(),
    decreases v.len(),
{
    if v.len() > 0 {
        lemma_col16_len(v.drop_last());
    }
}

proof fn lemma_col32_len(v: Seq<int>)
    ensures
        col32(v).len() == 4 * v.len(),
    decreases v.len(),
{
    if v.len() > 0 {
        lemma_col32_len(v.drop_last());
    }
}

proof fn lemma_col16_read(v: Seq<int>, pre: Seq<u8>, post: Seq<u8>, i: int)
    requires
        0 <= i < v.len(),
        forall|k: int| 0 <= k < v.len() ==> 0 <= #[trigger] v[k] < 65536,
    ensures
        le16(pre + col16(v) + post, pre.len() + 2 * i) == v[i],
    decreases v.len(),
{
    let d = v.drop_last();
    lemma_col16_len(d);
    if i == v.len() - 1 {
        assert(pre + col16(v) + post =~= (pre + col16(d)) + u16_bytes(v.last()) + post);
        lemma_le16_of_bytes(v.last(), pre + col16(d), post);
    } else {
        assert(pre + col16(v) + post =~= pre + col16(d) + (u16_bytes(v.last()) + post));
        assert(d[i] == v[i]);
        lemma_col16_read(d, pre, u16_bytes(v.last()) + post, i);
    }
}

proof fn lemma_col32_read(v: Seq<int>, pre: Seq<u8>, post: Seq<u8>, i: int)
    requires
        0 <= i < v.len(),
        forall|k: int| 0 <= k < v.len() ==> 0 <= #[trigger] v[k] < 0x1_0000_0000,
    ensures
        le32(pre + col32(v) + post, pre.len() + 4 * i) == v[i],
    decreases v.len(),
{
    let d = v.drop_last();
    lemma_col32_len(d);
    if i == v.len() - 1 {
        assert(pre + col32(v) + post =~= (pre + col32(d)) + u32_bytes(v.last()) + post);
        lemma_le32_of_bytes(v.last(), pre + col32(d), post);
    } else {
        assert(pre + col32(v) + post =~= pre + col32(d) + (u32_bytes(v.last()) + post));
        assert(d[i] == v[i]);
        lemma_col32_read(d, pre, u32_bytes(v.last()) + post, i);
    }
}

#[verifier::rlimit(40)]
#[verifier::spinoff_prover]
proof fn lemma_group_bytes_layout(g: InstanceGroup, pre: Seq<u8>, post: Seq<u8>)
    ensures
        ({
            let b = pre + group_bytes(g) + post;
            let o = pre.len() as int;
            &&& group_bytes(g).len() == group_size(b, o)
            &&& group_fault(b, o) is None
            &&& group_matches(g, b, o)
        }),
{
    let b = pre + group_bytes(g) + post;
    let o = pre.len() as int;
    let gb = group_bytes(g);
    assert(b.subrange(o, o + gb.len()) =~= gb);
    assert(b.subrange(o, o + 32) =~= g.id.0@);
    assert(b.subrange(o + 32, o + 64) =~= g.mesh.0@);
    assert(b.subrange(o + 64, o + 96) =~= g.material.0@);
    let tail = u16_bytes(g.variant as int) + u32_bytes(g.count as int);
    match g.clip {
        Some(c) => {
            assert(b[o + 96] == 1);
            assert(b.subrange(o + 97, o + 129) =~= c.0@);
            assert(b =~= pre + (g.id.0@ + g.mesh.0@ + g.material.0@ + seq![1u8] + c.0@) + u16_bytes(g.variant as int) + (u32_bytes(g.count as int) + post));
            lemma_le16_of_bytes(g.variant as int, pre + (g.id.0@ + g.mesh.0@ + g.material.0@ + seq![1u8] + c.0@), u32_bytes(g.count as int) + post);
            assert(b =~= pre + (g.id.0@ + g.mesh.0@ + g.material.0@ + seq![1u8] + c.0@ + u16_bytes(g.variant as int)) + u32_bytes(g.count as int) + post);
            lemma_le32_of_bytes(g.count as int, pre + (g.id.0@ + g.mesh.0@ + g.material.0@ + seq![1u8] + c.0@ + u16_bytes(g.variant as int)), post);
        },
        None => {
            assert(b[o + 96] == 0);
            assert(b =~= pre + (g.id.0@ + g.mesh.0@ + g.material.0@ + seq![0u8]) + u16_bytes(g.variant as int) + (u32_bytes(g.count as int) + post));
            lemma_le16_of_bytes(g.variant as int, pre + (g.id.0@ + g.mesh.0@ + g.material.0@ + seq![0u8]), u32_bytes(g.count as int) + post);
            assert(b =~= pre + (g.id.0@ + g.mesh.0@ + g.material.0@ + seq![0u8] + u16_bytes(g.variant as int)) + u32_bytes(g.count as int) + post);
            lemma_le32_of_bytes(g.count as int, pre + (g.id.0@ + g.mesh.0@ + g.material.0@ + seq![0u8] + u16_bytes(g.variant as int)), post);
        },
    }
}

#[verifier::rlimit(40)]
#[verifier::spinoff_prover]
proof fn lemma_groups_layout(gs: Seq<InstanceGroup>, pre: Seq<u8>, post: Seq<u8>, j: nat)
    requires
        j <= gs.len(),
    ensures
        ({
            let b = pre + groups_bytes(gs) + post;
            let start = pre.len() as int;
            &&& group_off(b, start, j) == start + groups_bytes(gs.take(j as int)).len()
            &&& groups_bytes(gs.take(j as int)) + groups_bytes(gs.skip(j as int)) == groups_bytes(gs)
        }),
    decreases j,
{
    let b = pre + groups_bytes(gs) + post;
    let start = pre.len() as int;
    lemma_groups_split(gs, j as int);
    if j > 0 {
        lemma_groups_layout(gs, pre, post, (j - 1) as nat);
        let k = (j - 1) as int;
        lemma_groups_split(gs, k);
        let before = pre + groups_bytes(gs.take(k));
        assert(gs.take(k + 1).drop_last() =~= gs.take(k));
        assert(groups_bytes(gs.skip(k)) == group_bytes(gs[k]) + groups_bytes(gs.skip(k + 1))) by {
            lemma_groups_split(gs.skip(k), 1);
            assert(gs.skip(k).take(1) =~= seq![gs[k]]);
            assert(gs.skip(k).skip(1) =~= gs.skip(k + 1));
            assert(seq![gs[k]].drop_last() =~= Seq::<InstanceGroup>::empty());
        }
        assert(b =~= before + group_bytes(gs[k]) + (groups_bytes(gs.skip(k + 1)) + post));
        lemma_group_bytes_layout(gs[k], before, groups_bytes(gs.skip(k + 1)) + post);
    }
}

proof fn lemma_groups_split(gs: Seq<InstanceGroup>, j: int)
    requires
        0 <= j <= gs.len(),
    ensures
        groups_bytes(gs.take(j)) + groups_bytes(gs.skip(j)) == groups_bytes(gs),
    decreases gs.len(),
{
    if j == gs.len() {
        assert(gs.take(j) =~= gs);
        assert(gs.skip(j) =~= Seq::<InstanceGroup>::empty());
        assert(groups_bytes(gs) + Seq::<u8>::empty() =~= groups_bytes(gs));
    } else {
        lemma_groups_split(gs.drop_last(), j);
        assert(gs.drop_last().take(j) =~= gs.take(j));
        assert(gs.skip(j).drop_last() =~= gs.drop_last().skip(j));
        assert(gs.skip(j).last() == gs.last());
        assert(groups_bytes(gs.take(j)) + groups_bytes(gs.skip(j)) =~= groups_bytes(gs.take(j)) + groups_bytes(
            gs.drop_last().skip(j),
        ) + group_bytes(gs.last()));
    }
}

/// A record table `encode_chunk` can write for `ng` groups: at most 65 536
/// records, each group index in range and each scale delta within sixteen
/// bits.
pub open spec fn records_fit(recs: Seq<PlacementRecord>, ng: int) -> bool {
    &&& recs.len() <= 65536
    &&& forall|i: int| 0 <= i < recs.len() ==> (#[trigger] recs[i]).group < ng
    &&& forall|i: int| 0 <= i < recs.len() ==> -32768 <= #[trigger] scale_delta(recs, i) < 32768
}

proof fn lemma_wrap_round(p: i32, r: i32)
    ensures
        p.wrapping_add(r.wrapping_sub(p)) == r,
{
}

#[verifier::rlimit(40)]
#[verifier::spinoff_prover]
proof fn lemma_decode_records_ok(b: Seq<u8>, c0: int, ng: int, recs: Seq<PlacementRecord>, i: nat)
    requires
        i <= recs.len(),
        records_fit(recs, ng),
        forall|k: int| 0 <= k < recs.len() ==> #[trigger] col_group(b, c0, k) == recs[k].group,
        forall|k: int| 0 <= k < recs.len() ==> #[trigger] col_dx(b, c0, recs.len() as int, k) == axis_delta(recs, k, 0),
        forall|k: int| 0 <= k < recs.len() ==> #[trigger] col_dy(b, c0, recs.len() as int, k) == axis_delta(recs, k, 1),
        forall|k: int| 0 <= k < recs.len() ==> #[trigger] col_dz(b, c0, recs.len() as int, k) == axis_delta(recs, k, 2),
        forall|k: int|
            0 <= k < recs.len() ==> #[trigger] col_dyaw(b, c0, recs.len() as int, k) == axis_delta(recs, k, 3),
        forall|k: int| 0 <= k < recs.len() ==> #[trigger] col_dscale(b, c0, recs.len() as int, k) == scale_delta(recs, k),
    ensures
        decode_records(b, c0, recs.len() as int, ng, i) == Ok::<Seq<PlacementRecord>, Seq<char>>(recs.take(i as int)),
    decreases i,
{
    if i > 0 {
        let k = i - 1;
        lemma_decode_records_ok(b, c0, ng, recs, (i - 1) as nat);
        let n = recs.len() as int;
        let r = recs[k];
        let rs = recs.take(k);
        assert(col_group(b, c0, k) == r.group);
        assert(col_dx(b, c0, n, k) == axis_delta(recs, k, 0));
        assert(col_dy(b, c0, n, k) == axis_delta(recs, k, 1));
        assert(col_dz(b, c0, n, k) == axis_delta(recs, k, 2));
        assert(col_dyaw(b, c0, n, k) == axis_delta(recs, k, 3));
        assert(col_dscale(b, c0, n, k) == scale_delta(recs, k));
        assert(-32768 <= scale_delta(recs, k) < 32768);
        assert(r.group < ng);
        assert(last_in_group(rs, r.group as int) == prev_of(recs, k));
        let t = rebuilt(b, c0, n, k, last_in_group(rs, r.group as int));
        match prev_of(recs, k) {
            Some(p) => {
                lemma_wrap_round(p.pose.x, r.pose.x);
                lemma_wrap_round(p.pose.y, r.pose.y);
                lemma_wrap_round(p.pose.z, r.pose.z);
                lemma_wrap_round(p.yaw.0, r.yaw.0);
            },
            None => {},
        }
        assert(t.0 == r.pose);
        assert(t.1 == r.yaw.0);
        assert(t.2 == r.scale_permille as int);
        let rec = PlacementRecord { group: r.group, pose: t.0, yaw: YawMd(t.1), scale_permille: t.2 as u16 };
        assert(rec == r);
        assert(decode_records(b, c0, n, ng, (i - 1) as nat) == Ok::<Seq<PlacementRecord>, Seq<char>>(rs));
        assert(decode_records(b, c0, n, ng, i) == Ok::<Seq<PlacementRecord>, Seq<char>>(rs.push(rec)));
        assert(recs.take(i as int) =~= rs.push(r));
    } else {
        assert(recs.take(0) =~= Seq::<PlacementRecord>::empty());
    }
}

proof fn lemma_groups_fault_none(b: Seq<u8>, start: int, ng: nat, j: nat)
    requires
        j <= ng,
        forall|t: nat| j <= t < ng ==> #[trigger] group_fault(b, group_off(b, start, t)) is None,
    ensures
        groups_fault(b, start, ng, j) is None,
    decreases ng - j,
{
    if j < ng {
        lemma_groups_fault_none(b, start, ng, j + 1);
    }
}

/// Header of a chunk: magic, version and padding, names, group count.
pub open spec fn chunk_head(place: Seq<char>, zone: Seq<char>, ng: int) -> Seq<u8> {
    kplm() + seq![1u8, 0, 0, 0] + name_field(place) + name_field(zone) + u16_bytes(ng)
}

/// The record columns of a chunk.
pub open spec fn chunk_cols(recs: Seq<PlacementRecord>) -> Seq<u8> {
    col16(group_col(recs)) + col32(axis_col(recs, 0)) + col32(axis_col(recs, 1)) + col32(axis_col(recs, 2)) + col32(
        axis_col(recs, 3),
    ) + col16(scale_col(recs))
}

proof fn lemma_chunk_parts(place: Seq<char>, zone: Seq<char>, gs: Seq<InstanceGroup>, recs: Seq<PlacementRecord>)
    ensures
        chunk_bytes(place, zone, gs, recs) == chunk_head(place, zone, gs.len() as int) + groups_bytes(gs) + u32_bytes(
            recs.len() as int,
        ) + chunk_cols(recs),
{
    assert(chunk_bytes(place, zone, gs, recs) =~= chunk_head(place, zone, gs.len() as int) + groups_bytes(gs)
        + u32_bytes(recs.len() as int) + chunk_cols(recs));
}

#[verifier::rlimit(40)]
#[verifier::spinoff_prover]
proof fn lemma_head_read(place: Seq<char>, zone: Seq<char>, ng: int, rest: Seq<u8>)
    requires
        place.len() > 0,
        zone.len() > 0,
        vstd::utf8::encode_utf8(place).len() <= 65535,
        vstd::utf8::encode_utf8(zone).len() <= 65535,
        0 <= ng <= 4096,
    ensures
        ({
            let b = chunk_head(place, zone, ng) + rest;
            &&& b.len() >= 8
            &&& b.subrange(0, 4) == kplm()
            &&& b[4] == 1
            &&& name_fault(b, 8) is None
            &&& name_text(b, 8) == place
            &&& name_fault(b, zone_at(b)) is None
            &&& name_text(b, zone_at(b)) == zone
            &&& groups_at(b) + 2 == chunk_head(place, zone, ng).len()
            &&& group_count(b) == ng
        }),
{
    broadcast use vstd::utf8::encode_utf8_valid_utf8, vstd::utf8::encode_utf8_decode_utf8;

    let ep = vstd::utf8::encode_utf8(place);
    let ez = vstd::utf8::encode_utf8(zone);
    let h0 = kplm() + seq![1u8, 0, 0, 0];
    let b = chunk_head(place, zone, ng) + rest;
    assert(b.subrange(0, 4) =~= kplm());
    assert(b[4] == 1);
    let t1 = ep + u16_bytes(ez.len() as int) + ez + u16_bytes(ng) + rest;
    assert(b =~= h0 + u16_bytes(ep.len() as int) + t1);
    lemma_le16_of_bytes(ep.len() as int, h0, t1);
    assert(b.subrange(10, 10 + ep.len() as int) =~= ep);
    let p1 = h0 + u16_bytes(ep.len() as int) + ep;
    let t2 = ez + u16_bytes(ng) + rest;
    assert(b =~= p1 + u16_bytes(ez.len() as int) + t2);
    assert(zone_at(b) == p1.len());
    lemma_le16_of_bytes(ez.len() as int, p1, t2);
    assert(b.subrange(zone_at(b) + 2, zone_at(b) + 2 + ez.len() as int) =~= ez);
    let p2 = p1 + u16_bytes(ez.len() as int) + ez;
    assert(b =~= p2 + u16_bytes(ng) + rest);
    assert(groups_at(b) == p2.len());
    lemma_le16_of_bytes(ng, p2, rest);
}

proof fn lemma_groups_cons(gs: Seq<InstanceGroup>, j: int)
    requires
        0 <= j < gs.len(),
    ensures
        groups_bytes(gs.skip(j)) == group_bytes(gs[j]) + groups_bytes(gs.skip(j + 1)),
{
    let t = gs.skip(j);
    lemma_groups_split(t, 1);
    assert(t.take(1) =~= seq![gs[j]]);
    assert(t.skip(1) =~= gs.skip(j + 1));
    let one = seq![gs[j]];
    assert(one.drop_last() =~= Seq::<InstanceGroup>::empty());
    assert(groups_bytes(one) == groups_bytes(one.drop_last()) + group_bytes(one.last()));
    assert(groups_bytes(Seq::<InstanceGroup>::empty()) == Seq::<u8>::empty());
    assert(groups_bytes(one) =~= group_bytes(gs[j]));
}

#[verifier::rlimit(40)]
#[verifier::spinoff_prover]
proof fn lemma_groups_read(pre: Seq<u8>, gs: Seq<InstanceGroup>, post: Seq<u8>)
    ensures
        ({
            let b = pre + groups_bytes(gs) + post;
            let start = pre.len() as int;
            &&& groups_fault(b, start, gs.len(), 0) is None
            &&& group_off(b, start, gs.len()) == start + groups_bytes(gs).len()
            &&& forall|j: int| 0 <= j < gs.len() ==> group_matches(#[trigger] gs[j], b, group_off(b, start, j as nat))
        }),
{
    let b = pre + groups_bytes(gs) + post;
    let start = pre.len() as int;
    let ng = gs.len();
    assert forall|t: nat| 0 <= t < ng implies #[trigger] group_fault(b, group_off(b, start, t)) is None
        && group_matches(gs[t as int], b, group_off(b, start, t)) by {
        let j = t as int;
        lemma_groups_layout(gs, pre, post, t);
        lemma_groups_cons(gs, j);
        assert(b =~= (pre + groups_bytes(gs.take(j))) + group_bytes(gs[j]) + (groups_bytes(gs.skip(j + 1)) + post));
        lemma_group_bytes_layout(gs[j], pre + groups_bytes(gs.take(j)), groups_bytes(gs.skip(j + 1)) + post);
    }
    assert forall|j: int| 0 <= j < ng implies group_matches(#[trigger] gs[j], b, group_off(b, start, j as nat)) by {
        assert(group_fault(b, group_off(b, start, j as nat)) is None);
    }
    lemma_groups_fault_none(b, start, ng, 0);
    lemma_groups_layout(gs, pre, post, ng);
    assert(gs.take(ng as int) =~= gs);
}

#[verifier::rlimit(40)]
#[verifier::spinoff_prover]
proof fn lemma_cols_read(pre: Seq<u8>, recs: Seq<PlacementRecord>)
    ensures
        ({
            let b = pre + chunk_cols(recs);
            let c0 = pre.len() as int;
            let n = recs.len() as int;
            &&& b.len() == c0 + 20 * n
            &&& forall|k: int| 0 <= k < n ==> #[trigger] col_group(b, c0, k) == recs[k].group
            &&& forall|k: int| 0 <= k < n ==> #[trigger] col_dx(b, c0, n, k) == axis_delta(recs, k, 0)
            &&& forall|k: int| 0 <= k < n ==> #[trigger] col_dy(b, c0, n, k) == axis_delta(recs, k, 1)
            &&& forall|k: int| 0 <= k < n ==> #[trigger] col_dz(b, c0, n, k) == axis_delta(recs, k, 2)
            &&& forall|k: int| 0 <= k < n ==> #[trigger] col_dyaw(b, c0, n, k) == axis_delta(recs, k, 3)
        }),
{
    let b = pre + chunk_cols(recs);
    let c0 = pre.len() as int;
    let n = recs.len() as int;
    let c16g = col16(group_col(recs));
    let cx = col32(axis_col(recs, 0));
    let cy = col32(axis_col(recs, 1));
    let cz = col32(axis_col(recs, 2));
    let cw = col32(axis_col(recs, 3));
    let cs = col16(scale_col(recs));
    lemma_col16_len(group_col(recs));
    lemma_col32_len(axis_col(recs, 0));
    lemma_col32_len(axis_col(recs, 1));
    lemma_col32_len(axis_col(recs, 2));
    lemma_col32_len(axis_col(recs, 3));
    lemma_col16_len(scale_col(recs));
    assert forall|a: int, k: int| 0 <= k < n && 0 <= a < 4 implies 0 <= #[trigger] axis_col(recs, a)[k] < 0x1_0000_0000 by {
        lemma_signed32_pattern(axis_delta(recs, k, a) as int);
    }
    assert forall|k: int| 0 <= k < n implies #[trigger] col_group(b, c0, k) == recs[k].group by {
        assert(b =~= pre + c16g + (cx + cy + cz + cw + cs));
        lemma_col16_read(group_col(recs), pre, cx + cy + cz + cw + cs, k);
    }
    assert forall|k: int| 0 <= k < n implies #[trigger] col_dx(b, c0, n, k) == axis_delta(recs, k, 0) by {
        assert(b =~= (pre + c16g) + cx + (cy + cz + cw + cs));
        lemma_col32_read(axis_col(recs, 0), pre + c16g, cy + cz + cw + cs, k);
        lemma_signed32_pattern(axis_delta(recs, k, 0) as int);
    }
    assert forall|k: int| 0 <= k < n implies #[trigger] col_dy(b, c0, n, k) == axis_delta(recs, k, 1) by {
        assert(b =~= (pre + c16g + cx) + cy + (cz + cw + cs));
        lemma_col32_read(axis_col(recs, 1), pre + c16g + cx, cz + cw + cs, k);
        lemma_signed32_pattern(axis_delta(recs, k, 1) as int);
    }
    assert forall|k: int| 0 <= k < n implies #[trigger] col_dz(b, c0, n, k) == axis_delta(recs, k, 2) by {
        assert(b =~= (pre + c16g + cx + cy) + cz + (cw + cs));
        lemma_col32_read(axis_col(recs, 2), pre + c16g + cx + cy, cw + cs, k);
        lemma_signed32_pattern(axis_delta(recs, k, 2) as int);
    }
    assert forall|k: int| 0 <= k < n implies #[trigger] col_dyaw(b, c0, n, k) == axis_delta(recs, k, 3) by {
        assert(b =~= (pre + c16g + cx + cy + cz) + cw + cs);
        lemma_col32_read(axis_col(recs, 3), pre + c16g + cx + cy + cz, cs, k);
        lemma_signed32_pattern(axis_delta(recs, k, 3) as int);
    }
}

#[verifier::rlimit(40)]
#[verifier::spinoff_prover]
proof fn lemma_scale_col_read(pre: Seq<u8>, recs: Seq<PlacementRecord>)
    requires
        forall|i: int| 0 <= i < recs.len() ==> -32768 <= #[trigger] scale_delta(recs, i) < 32768,
    ensures
        forall|k: int|
            0 <= k < recs.len() ==> #[trigger] col_dscale(pre + chunk_cols(recs), pre.len() as int, recs.len() as int, k)
                == scale_delta(recs, k),
{
    let b = pre + chunk_cols(recs);
    let c0 = pre.len() as int;
    let n = recs.len() as int;
    let lead = pre + col16(group_col(recs)) + col32(axis_col(recs, 0)) + col32(axis_col(recs, 1)) + col32(
        axis_col(recs, 2),
    ) + col32(axis_col(recs, 3));
    lemma_col16_len(group_col(recs));
    lemma_col32_len(axis_col(recs, 0));
    lemma_col32_len(axis_col(recs, 1));
    lemma_col32_len(axis_col(recs, 2));
    lemma_col32_len(axis_col(recs, 3));
    assert(lead.len() == c0 + 18 * n);
    assert forall|k: int| 0 <= k < n implies 0 <= #[trigger] scale_col(recs)[k] < 65536 by {
        lemma_signed16_pattern(scale_delta(recs, k));
    }
    assert forall|k: int| 0 <= k < n implies #[trigger] col_dscale(b, c0, n, k) == scale_delta(recs, k) by {
        assert(b =~= lead + col16(scale_col(recs)) + Seq::<u8>::empty());
        lemma_col16_read(scale_col(recs), lead, Seq::<u8>::empty(), k);
        lemma_signed16_pattern(scale_delta(recs, k));
    }
}

/// Decoding what `encode_chunk` writes gives back its names, groups and
/// records exactly, whenever the names are not empty (an empty name is
/// written but refused on reading).
#[verifier::rlimit(40)]
#[verifier::spinoff_prover]
pub proof fn lemma_chunk_round_trip(place: Seq<char>, zone: Seq<char>, gs: Seq<InstanceGroup>, recs: Seq<PlacementRecord>)
    requires
        place.len() > 0,
        zone.len() > 0,
        vstd::utf8::encode_utf8(place).len() <= 65535,
        vstd::utf8::encode_utf8(zone).len() <= 65535,
        gs.len() <= 4096,
        records_fit(recs, gs.len() as int),
    ensures
        ({
            let b = chunk_bytes(place, zone, gs, recs);
            &&& chunk_fault(b) is None
            &&& name_text(b, 8) == place
            &&& name_text(b, zone_at(b)) == zone
            &&& group_count(b) == gs.len()
            &&& forall|j: int|
                0 <= j < gs.len() ==> group_matches(#[trigger] gs[j], b, group_off(b, groups_at(b) + 2, j as nat))
            &&& record_count(b) == recs.len()
            &&& decode_records(b, columns_at(b), recs.len() as int, gs.len() as int, recs.len())
                == Ok::<Seq<PlacementRecord>, Seq<char>>(recs)
        }),
{
    let b = chunk_bytes(place, zone, gs, recs);
    let n = recs.len() as int;
    let ng = gs.len() as int;
    let head = chunk_head(place, zone, ng);
    let gb = groups_bytes(gs);
    let cols = chunk_cols(recs);
    lemma_chunk_parts(place, zone, gs, recs);
    lemma_head_read(place, zone, ng, gb + u32_bytes(n) + cols);
    assert(b =~= head + (gb + u32_bytes(n) + cols));
    lemma_groups_read(head, gs, u32_bytes(n) + cols);
    assert(b =~= head + gb + (u32_bytes(n) + cols));
    assert(records_at(b) == (head + gb).len());
    assert(b =~= (head + gb) + u32_bytes(n) + cols);
    lemma_le32_of_bytes(n, head + gb, cols);
    assert(record_count(b) == n);
    let pre = head + gb + u32_bytes(n);
    assert(b =~= pre + cols);
    assert(columns_at(b) == pre.len());
    lemma_cols_read(pre, recs);
    lemma_scale_col_read(pre, recs);
    lemma_decode_records_ok(b, pre.len() as int, ng, recs, recs.len());
    assert(recs.take(n) =~= recs);
}

/// A character kept in a chunk file name: ASCII letters, digits, `-`, `_`.
pub open spec fn file_safe(c: char) -> bool {
    ('a' <= c && c <= 'z') || ('A' <= c && c <= 'Z') || ('0' <= c && c <= '9') || c == '-' || c == '_'
}

/// `s` with every other character replaced by `_`; `_` when empty.
pub open spec fn spec_sanitize(s: Seq<char>) -> Seq<char> {
    if s.len() == 0 {
        seq!['_']
    } else {
        s.map_values(|c: char| if file_safe(c) { c } else { '_' })
    }
}

/// File-name-safe form of a place or zone name.
pub fn sanitize(s: &str) -> (r: String)
    ensures
        r@ == spec_sanitize(s@),
{
    let cs = crate::failure::chars_of(s);
    let mut out: Vec<char> = Vec::new();
    let mut i: usize = 0;
    while i < cs.len()
        invariant
            cs@ == s@,
            0 <= i <= cs@.len(),
            out@ == s@.take(i as int).map_values(|c: char| if file_safe(c) { c } else { '_' }),
        decreases cs@.len() - i,
    {
        let c = cs[i];
        let keep = ('a' <= c && c <= 'z') || ('A' <= c && c <= 'Z') || ('0' <= c && c <= '9') || c == '-' || c == '_';
        out.push(if keep { c } else { '_' });
        i = i + 1;
        assert(out@ =~= s@.take(i as int).map_values(|c: char| if file_safe(c) { c } else { '_' }));
    }
    assert(s@.take(s@.len() as int) =~= s@);
    if out.len() == 0 {
        let mut one: Vec<char> = Vec::new();
        one.push('_');
        assert(one@ =~= seq!['_']);
        return crate::failure::string_of(&one);
    }
    crate::failure::string_of(&out)
}

/// File name of a chunk: `place-<place>-<zone>.kplm`, names made file-safe.
pub open spec fn spec_file_name(place: Seq<char>, zone: Seq<char>) -> Seq<char> {
    "place-"@ + spec_sanitize(place) + "-"@ + spec_sanitize(zone) + ".kplm"@
}

/// File name the chunk is written under.
pub fn chunk_file_name(chunk: &PlacementChunk) -> (r: String)
    ensures
        r@ == spec_file_name(chunk.place@, chunk.zone@),
{
    let mut r = text("place-");
    let p = sanitize(chunk.place.as_str());
    r.append(p.as_str());
    r.append("-");
    let z = sanitize(chunk.zone.as_str());
    r.append(z.as_str());
    r.append(".kplm");
    r
}

/// Display form of a blob id: `blob:`, its first four bytes in hex, then an
/// ellipsis.
pub open spec fn short_id(b: BlobId) -> Seq<char> {
    seq!['b', 'l', 'o', 'b', ':'] + hex_text(b.0@.take(4)) + seq!['\u{2026}']
}

/// First asset in `j..k` with id bytes `id`.
pub open spec fn first_asset(assets: Seq<(BlobId, Vec<u8>)>, id: Seq<u8>, j: int, k: int) -> Option<int>
    decreases k - j,
{
    if j < 0 || j >= k || j >= assets.len() {
        None
    } else if assets[j].0.0@ == id {
        Some(j)
    } else {
        first_asset(assets, id, j + 1, k)
    }
}

/// Why asset `k` is refused: its bytes do not hash to its id, or an earlier
/// asset with the same id has other bytes.
pub open spec fn asset_fault(assets: Seq<(BlobId, Vec<u8>)>, derived: Seq<BlobId>, k: int) -> Option<Seq<char>> {
    if derived[k].0@ != assets[k].0.0@ {
        Some("blob id mismatch for "@ + short_id(assets[k].0))
    } else {
        match first_asset(assets, assets[k].0.0@, 0, k) {
            Some(j) => if assets[j].1@ != assets[k].1@ {
                Some("blob collision for "@ + short_id(assets[k].0))
            } else {
                None
            },
            None => None,
        }
    }
}

/// The first asset fault from `k` on.
pub open spec fn assets_fault(assets: Seq<(BlobId, Vec<u8>)>, derived: Seq<BlobId>, k: int) -> Option<Seq<char>>
    decreases assets.len() - k,
{
    if k < 0 || k >= assets.len() {
        None
    } else {
        match asset_fault(assets, derived, k) {
            Some(e) => Some(e),
            None => assets_fault(assets, derived, k + 1),
        }
    }
}

/// Each distinct asset id once, with its bytes, in order of first appearance
/// among the first `k` assets.
pub open spec fn unique_assets(assets: Seq<(BlobId, Vec<u8>)>, k: int) -> Seq<(BlobId, Seq<u8>)>
    decreases k,
{
    if k <= 0 {
        Seq::empty()
    } else {
        let rest = unique_assets(assets, k - 1);
        if first_asset(assets, assets[k - 1].0.0@, 0, k - 1) is Some {
            rest
        } else {
            rest.push((assets[k - 1].0, assets[k - 1].1@))
        }
    }
}

/// Byte-string order: lexicographic, a proper prefix first.
pub open spec fn bytes_lt(a: Seq<u8>, b: Seq<u8>) -> bool
    decreases a.len(),
{
    if a.len() == 0 {
        b.len() > 0
    } else if b.len() == 0 {
        false
    } else if a[0] != b[0] {
        a[0] < b[0]
    } else {
        bytes_lt(a.drop_first(), b.drop_first())
    }
}

/// Where `x` goes among blobs: after every blob whose id it does not sort
/// before.
pub open spec fn blob_pos(s: Seq<(BlobId, Seq<u8>)>, x: (BlobId, Seq<u8>), k: int) -> int
    decreases s.len() - k,
{
    if k < 0 || k >= s.len() || bytes_lt(x.0.0@, s[k].0.0@) {
        k
    } else {
        blob_pos(s, x, k + 1)
    }
}

/// Blobs in id order (a stable insertion of each in turn).
pub open spec fn sort_blobs(s: Seq<(BlobId, Seq<u8>)>) -> Seq<(BlobId, Seq<u8>)>
    decreases s.len(),
{
    if s.len() == 0 {
        s
    } else {
        let t = sort_blobs(s.drop_last());
        t.insert(blob_pos(t, s.last(), 0), s.last())
    }
}

/// Ids and byte views of stored blobs.
pub open spec fn blob_views(s: Seq<(BlobId, Vec<u8>)>) -> Seq<(BlobId, Seq<u8>)> {
    s.map_values(|e: (BlobId, Vec<u8>)| (e.0, e.1@))
}

/// Some asset has id bytes `id`.
pub open spec fn has_asset(assets: Seq<(BlobId, Vec<u8>)>, id: Seq<u8>) -> bool {
    first_asset(assets, id, 0, assets.len() as int) is Some
}

/// Why a placement is refused: a blob it names is missing, or its scale is
/// zero.
pub open spec fn placement_fault(assets: Seq<(BlobId, Vec<u8>)>, p: RawPlacement) -> Option<Seq<char>> {
    if !has_asset(assets, p.mesh.0@) {
        Some("missing blob "@ + short_id(p.mesh))
    } else if !has_asset(assets, p.material.0@) {
        Some("missing blob "@ + short_id(p.material))
    } else if p.clip matches Some(c) && !has_asset(assets, c.0@) {
        Some("missing blob "@ + short_id(p.clip.unwrap()))
    } else if p.scale_permille == 0 {
        Some("scale permille is 0"@)
    } else {
        None
    }
}

/// The first placement fault from `k` on.
pub open spec fn placements_fault(assets: Seq<(BlobId, Vec<u8>)>, ps: Seq<RawPlacement>, k: int) -> Option<Seq<char>>
    decreases ps.len() - k,
{
    if k < 0 || k >= ps.len() {
        None
    } else {
        match placement_fault(assets, ps[k]) {
            Some(e) => Some(e),
            None => placements_fault(assets, ps, k + 1),
        }
    }
}

/// Place and zone of a placement.
pub open spec fn row_key(p: RawPlacement) -> (Seq<char>, Seq<char>) {
    (p.place@, p.zone@)
}

/// Distinct keys of the first `k` placements, in order of first appearance.
pub open spec fn distinct_keys(ps: Seq<RawPlacement>, k: int) -> Seq<(Seq<char>, Seq<char>)>
    decreases k,
{
    if k <= 0 {
        Seq::empty()
    } else {
        let rest = distinct_keys(ps, k - 1);
        if rest.contains(row_key(ps[k - 1])) {
            rest
        } else {
            rest.push(row_key(ps[k - 1]))
        }
    }
}

/// Placements of one place and zone among the first `k`, in order.
pub open spec fn rows_upto(ps: Seq<RawPlacement>, key: (Seq<char>, Seq<char>), k: int) -> Seq<RawPlacement>
    decreases k,
{
    if k <= 0 {
        Seq::empty()
    } else {
        let rest = rows_upto(ps, key, k - 1);
        if row_key(ps[k - 1]) == key {
            rest.push(ps[k - 1])
        } else {
            rest
        }
    }
}

/// The placements of one place and zone, in order.
pub open spec fn rows_of(ps: Seq<RawPlacement>, key: (Seq<char>, Seq<char>)) -> Seq<RawPlacement> {
    rows_upto(ps, key, ps.len() as int)
}

/// The chunk of `key` cannot be encoded.
pub open spec fn key_faulty(ps: Seq<RawPlacement>, key: (Seq<char>, Seq<char>)) -> bool {
    encode_fault(key.0, key.1, rows_of(ps, key)) is Some
}

/// The encode failure of the least chunk key, in place-then-zone order,
/// whose chunk cannot be encoded; none when every chunk encodes.
pub open spec fn key_fault(ps: Seq<RawPlacement>) -> Option<Seq<char>> {
    let ks = distinct_keys(ps, ps.len() as int);
    if exists|i: int| 0 <= i < ks.len() && key_faulty(ps, #[trigger] ks[i]) {
        let kk = choose|kk: (Seq<char>, Seq<char>)|
            ks.contains(kk) && key_faulty(ps, kk) && forall|j: int|
                0 <= j < ks.len() && key_faulty(ps, #[trigger] ks[j]) ==> !key_lt(ks[j], kk);
        encode_fault(kk.0, kk.1, rows_of(ps, kk))
    } else {
        None
    }
}

/// Why the world cannot be materialized: an asset fault, else a placement
/// fault, else the first chunk (in key order) that cannot be encoded.
pub open spec fn world_fault(ps: Seq<RawPlacement>, assets: Seq<(BlobId, Vec<u8>)>, derived: Seq<BlobId>) -> Option<
    Seq<char>,
> {
    match assets_fault(assets, derived, 0) {
        Some(e) => Some(e),
        None => match placements_fault(assets, ps, 0) {
            Some(e) => Some(e),
            None => key_fault(ps),
        },
    }
}

fn same_slice(a: &[u8], b: &[u8]) -> (r: bool)
    ensures
        r == (a@ == b@),
{
    if a.len() != b.len() {
        return false;
    }
    let mut i: usize = 0;
    while i < a.len()
        invariant
            a@.len() == b@.len(),
            0 <= i <= a@.len(),
            forall|j: int| 0 <= j < i ==> a@[j] == b@[j],
        decreases a@.len() - i,
    {
        if a[i] != b[i] {
            return false;
        }
        i = i + 1;
    }
    assert(a@ =~= b@);
    true
}

fn find_asset(assets: &[(BlobId, Vec<u8>)], id: &BlobId, k: usize) -> (r: Option<usize>)
    requires
        k <= assets@.len(),
    ensures
        match r {
            Some(j) => first_asset(assets@, id.0@, 0, k as int) == Some(j as int) && j < k,
            None => first_asset(assets@, id.0@, 0, k as int) is None,
        },
{
    let mut j: usize = 0;
    while j < k
        invariant
            k <= assets@.len(),
            0 <= j <= k,
            first_asset(assets@, id.0@, 0, k as int) == first_asset(assets@, id.0@, j as int, k as int),
        decreases k - j,
    {
        if same_bytes32(&assets[j].0.0, &id.0) {
            return Some(j);
        }
        j = j + 1;
    }
    None
}

proof fn lemma_assets_fault_step(assets: Seq<(BlobId, Vec<u8>)>, derived: Seq<BlobId>, k: int)
    requires
        0 <= k < assets.len(),
        asset_fault(assets, derived, k) is None,
    ensures
        assets_fault(assets, derived, k) == assets_fault(assets, derived, k + 1),
{
}

pub(crate) fn bytes_less(a: &[u8; 32], b: &[u8; 32]) -> (r: bool)
    ensures
        r == bytes_lt(a@, b@),
{
    let mut i: usize = 0;
    assert(a@.skip(0) =~= a@);
    assert(b@.skip(0) =~= b@);
    while i < 32
        invariant
            0 <= i <= 32,
            bytes_lt(a@, b@) == bytes_lt(a@.skip(i as int), b@.skip(i as int)),
        decreases 32 - i,
    {
        if a[i] != b[i] {
            return a[i] < b[i];
        }
        assert(a@.skip(i as int).drop_first() =~= a@.skip(i as int + 1));
        assert(b@.skip(i as int).drop_first() =~= b@.skip(i as int + 1));
        i = i + 1;
    }
    false
}

fn sort_blob_list(v: Vec<(BlobId, Vec<u8>)>) -> (r: Vec<(BlobId, Vec<u8>)>)
    ensures
        blob_views(r@) == sort_blobs(blob_views(v@)),
{
    let mut out: Vec<(BlobId, Vec<u8>)> = Vec::new();
    let mut rest = v;
    let ghost all = blob_views(rest@);
    let mut k: usize = 0;
    assert(all.take(0) =~= Seq::<(BlobId, Seq<u8>)>::empty());
    assert(blob_views(out@) =~= Seq::<(BlobId, Seq<u8>)>::empty());
    let n = rest.len();
    while k < n
        invariant
            n == all.len(),
            0 <= k <= n,
            rest@.len() == n,
            blob_views(rest@) == all,
            blob_views(out@) == sort_blobs(all.take(k as int)),
        decreases n - k,
    {
        let id = rest[k].0;
        let bytes = vstd::slice::slice_to_vec(rest[k].1.as_slice());
        let ghost x = (id, bytes@);
        assert(all[k as int] == x);
        let mut p: usize = 0;
        while p < out.len() && !bytes_less(&id.0, &out[p].0.0)
            invariant
                x.0 == id,
                0 <= p <= out@.len(),
                blob_pos(blob_views(out@), x, 0) == blob_pos(blob_views(out@), x, p as int),
            decreases out@.len() - p,
        {
            assert(blob_views(out@)[p as int] == (out@[p as int].0, out@[p as int].1@));
            p = p + 1;
        }
        assert(all.take(k as int + 1).drop_last() =~= all.take(k as int));
        let ghost before = out@;
        out.insert(p, (id, bytes));
        assert(blob_views(out@) =~= blob_views(before).insert(p as int, x));
        k = k + 1;
    }
    assert(all.take(n as int) =~= all);
    out
}

fn placement_check(assets: &[(BlobId, Vec<u8>)], p: &RawPlacement) -> (r: Result<(), CompileError>)
    ensures
        match placement_fault(assets@, *p) {
            Some(m) => r matches Err(CompileError::Placement(t)) && t@ == m,
            None => r is Ok,
        },
{
    let n = assets.len();
    if find_asset(assets, &p.mesh, n).is_none() {
        let mut m = text("missing blob ");
        let s = p.mesh.to_short_string();
        m.append(s.as_str());
        return Err(placement_error(m));
    }
    if find_asset(assets, &p.material, n).is_none() {
        let mut m = text("missing blob ");
        let s = p.material.to_short_string();
        m.append(s.as_str());
        return Err(placement_error(m));
    }
    if let Some(c) = &p.clip {
        if find_asset(assets, c, n).is_none() {
            let mut m = text("missing blob ");
            let s = c.to_short_string();
            m.append(s.as_str());
            return Err(placement_error(m));
        }
    }
    if p.scale_permille == 0 {
        return Err(placement_error(text("scale permille is 0")));
    }
    Ok(())
}

fn copy_row(p: &RawPlacement) -> (r: RawPlacement)
    ensures
        r == *p,
{
    RawPlacement {
        place: p.place.dup(),
        zone: p.zone.dup(),
        mesh: p.mesh,
        material: p.material,
        clip: p.clip,
        variant: p.variant,
        pose: p.pose,
        yaw: p.yaw,
        scale_permille: p.scale_permille,
    }
}

fn rows_for(ps: &[RawPlacement], key: &ChunkKey) -> (r: Vec<RawPlacement>)
    ensures
        r@ == rows_of(ps@, kv(*key)),
{
    let mut out: Vec<RawPlacement> = Vec::new();
    let mut t: usize = 0;
    while t < ps.len()
        invariant
            0 <= t <= ps@.len(),
            out@ == rows_upto(ps@, kv(*key), t as int),
        decreases ps@.len() - t,
    {
        let p = &ps[t];
        if crate::diag::str_eq(p.place.as_str(), key.0.as_str()) && crate::diag::str_eq(
            p.zone.as_str(),
            key.1.as_str(),
        ) {
            out.push(copy_row(p));
        }
        t = t + 1;
    }
    out
}

fn key_listed(keys: &Vec<ChunkKey>, p: &RawPlacement) -> (r: bool)
    ensures
        r == key_views(keys@).contains(row_key(*p)),
{
    let mut i: usize = 0;
    while i < keys.len()
        invariant
            0 <= i <= keys@.len(),
            forall|j: int| 0 <= j < i ==> key_views(keys@)[j] != row_key(*p),
        decreases keys@.len() - i,
    {
        if crate::diag::str_eq(keys[i].0.as_str(), p.place.as_str()) && crate::diag::str_eq(
            keys[i].1.as_str(),
            p.zone.as_str(),
        ) {
            assert(key_views(keys@)[i as int] == row_key(*p));
            return true;
        }
        i = i + 1;
    }
    false
}

/// `w` is the world materialized from `ps` and `assets`: each distinct
/// asset once, in id order, and one encoded chunk per place and zone, in
/// key order.
pub open spec fn world_made(w: MaterializedWorld, ps: Seq<RawPlacement>, assets: Seq<(BlobId, Vec<u8>)>) -> bool {
    &&& blob_views(w.blobs@) == sort_blobs(unique_assets(assets, assets.len() as int))
    &&& keys_sorted(w.chunks@.map_values(|c: PlacementChunk| ckv(c)))
    &&& w.chunks@.map_values(|c: PlacementChunk| ckv(c)).to_multiset() == distinct_keys(ps, ps.len() as int).to_multiset()
    &&& forall|i: int|
        0 <= i < w.chunks@.len() ==> encoded(
            #[trigger] w.chunks@[i],
            w.chunks@[i].place@,
            w.chunks@[i].zone@,
            rows_of(ps, ckv(w.chunks@[i])),
        )
}

/// Materialize dressing: check each asset's bytes against its id (`derived`
/// holds the id its bytes hash to) and store identical bytes once, check
/// every placement's blobs and scale, then encode one chunk per place and
/// zone, in place-then-zone order. The blob ids are supplied by the caller
/// because the content-addressing function belongs to the provenance crate,
/// which is not part of this build.
#[verifier::rlimit(80)]
#[verifier::spinoff_prover]
pub fn materialize(placements: &[RawPlacement], assets: &[(BlobId, Vec<u8>)], derived: &[BlobId]) -> (r: Result<
    MaterializedWorld,
    CompileError,
>)
    requires
        derived@.len() == assets@.len(),
    ensures
        match world_fault(placements@, assets@, derived@) {
            Some(m) => r matches Err(CompileError::Placement(t)) && t@ == m,
            None => r matches Ok(w) && world_made(w, placements@, assets@),
        },
{
    let mut uniq: Vec<(BlobId, Vec<u8>)> = Vec::new();
    let mut k: usize = 0;
    while k < assets.len()
        invariant
            derived@.len() == assets@.len(),
            0 <= k <= assets@.len(),
            assets_fault(assets@, derived@, 0) == assets_fault(assets@, derived@, k as int),
            blob_views(uniq@) == unique_assets(assets@, k as int),
        decreases assets@.len() - k,
    {
        let id = assets[k].0;
        if !same_bytes32(&derived[k].0, &id.0) {
            let mut m = text("blob id mismatch for ");
            let s = id.to_short_string();
            m.append(s.as_str());
            return Err(placement_error(m));
        }
        match find_asset(assets, &id, k) {
            Some(j) => {
                if !same_slice(assets[j].1.as_slice(), assets[k].1.as_slice()) {
                    let mut m = text("blob collision for ");
                    let s = id.to_short_string();
                    m.append(s.as_str());
                    return Err(placement_error(m));
                }
            },
            None => {
                let ghost before = uniq@;
                uniq.push((id, vstd::slice::slice_to_vec(assets[k].1.as_slice())));
                assert(blob_views(uniq@) =~= blob_views(before).push((id, assets@[k as int].1@)));
            },
        }
        proof {
            lemma_assets_fault_step(assets@, derived@, k as int);
        }
        k = k + 1;
    }
    let blobs = sort_blob_list(uniq);
    let ghost blob_ok = blob_views(blobs@) == sort_blobs(unique_assets(assets@, assets@.len() as int));
    assert(blob_ok);
    let mut q: usize = 0;
    while q < placements.len()
        invariant
            assets_fault(assets@, derived@, 0) is None,
            0 <= q <= placements@.len(),
            placements_fault(assets@, placements@, 0) == placements_fault(assets@, placements@, q as int),
        decreases placements@.len() - q,
    {
        match placement_check(assets, &placements[q]) {
            Ok(()) => {},
            Err(e) => {
                return Err(e);
            },
        }
        q = q + 1;
    }
    let ghost ps = placements@;
    let mut keys: Vec<ChunkKey> = Vec::new();
    let mut t: usize = 0;
    while t < placements.len()
        invariant
            ps == placements@,
            assets_fault(assets@, derived@, 0) is None,
            placements_fault(assets@, ps, 0) is None,
            0 <= t <= ps.len(),
            key_views(keys@) == distinct_keys(ps, t as int),
        decreases ps.len() - t,
    {
        let p = &placements[t];
        if !key_listed(&keys, p) {
            let ghost before = keys@;
            keys.push((p.place.dup(), p.zone.dup()));
            assert(key_views(keys@) =~= key_views(before).push(row_key(*p)));
        }
        t = t + 1;
    }
    let sorted = sort_keys(&keys);
    let ghost ks = distinct_keys(ps, ps.len() as int);
    proof {
        lemma_distinct_keys_unique(ps, ps.len() as int);
    }
    let mut chunks: Vec<PlacementChunk> = Vec::new();
    let mut i: usize = 0;
    while i < sorted.len()
        invariant
            ps == placements@,
            assets_fault(assets@, derived@, 0) is None,
            placements_fault(assets@, ps, 0) is None,
            ks == distinct_keys(ps, ps.len() as int),
            ks.no_duplicates(),
            keys_sorted(key_views(sorted@)),
            key_views(sorted@).to_multiset() == ks.to_multiset(),
            0 <= i <= sorted@.len(),
            chunks@.len() == i,
            forall|j: int| 0 <= j < i ==> ckv(#[trigger] chunks@[j]) == key_views(sorted@)[j],
            forall|j: int| 0 <= j < i ==> !key_faulty(ps, #[trigger] key_views(sorted@)[j]),
            forall|j: int|
                0 <= j < i ==> encoded(
                    #[trigger] chunks@[j],
                    chunks@[j].place@,
                    chunks@[j].zone@,
                    rows_of(ps, ckv(chunks@[j])),
                ),
        decreases sorted@.len() - i,
    {
        let key = &sorted[i];
        let rows = rows_for(placements, key);
        match encode_chunk(&key.0, &key.1, rows.as_slice()) {
            Ok(c) => {
                chunks.push(c);
            },
            Err(e) => {
                proof {
                    lemma_least_fault(ps, key_views(sorted@), i as int);
                }
                return Err(e);
            },
        }
        i = i + 1;
    }
    proof {
        let cv = chunks@.map_values(|c: PlacementChunk| ckv(c));
        assert(cv =~= key_views(sorted@));
        assert forall|j: int| 0 <= j < ks.len() implies !key_faulty(ps, #[trigger] ks[j]) by {
            lemma_multiset_member(key_views(sorted@), ks, j);
        }
    }
    Ok(MaterializedWorld { blobs, chunks })
}

proof fn lemma_distinct_keys_unique(ps: Seq<RawPlacement>, k: int)
    requires
        0 <= k <= ps.len(),
    ensures
        distinct_keys(ps, k).no_duplicates(),
    decreases k,
{
    if k > 0 {
        lemma_distinct_keys_unique(ps, k - 1);
    }
}

proof fn lemma_multiset_member(s: Seq<(Seq<char>, Seq<char>)>, ks: Seq<(Seq<char>, Seq<char>)>, j: int)
    requires
        s.to_multiset() == ks.to_multiset(),
        0 <= j < ks.len(),
    ensures
        exists|t: int| 0 <= t < s.len() && s[t] == ks[j],
{
    vstd::seq_lib::to_multiset_contains(ks, ks[j]);
    vstd::seq_lib::to_multiset_contains(s, ks[j]);
    assert(ks.contains(ks[j]));
}

proof fn lemma_least_fault(ps: Seq<RawPlacement>, s: Seq<(Seq<char>, Seq<char>)>, i: int)
    requires
        keys_sorted(s),
        s.to_multiset() == distinct_keys(ps, ps.len() as int).to_multiset(),
        distinct_keys(ps, ps.len() as int).no_duplicates(),
        0 <= i < s.len(),
        key_faulty(ps, s[i]),
        forall|j: int| 0 <= j < i ==> !key_faulty(ps, #[trigger] s[j]),
    ensures
        key_fault(ps) == encode_fault(s[i].0, s[i].1, rows_of(ps, s[i])),
{
    let ks = distinct_keys(ps, ps.len() as int);
    vstd::seq_lib::to_multiset_contains(s, s[i]);
    vstd::seq_lib::to_multiset_contains(ks, s[i]);
    assert(s.contains(s[i]));
    assert(ks.contains(s[i]));
    let w = choose|w: int| 0 <= w < ks.len() && ks[w] == s[i];
    assert(key_faulty(ps, ks[w]));
    assert forall|j: int| 0 <= j < ks.len() && key_faulty(ps, #[trigger] ks[j]) implies !key_lt(ks[j], s[i]) by {
        lemma_multiset_member(s, ks, j);
        let t = choose|t: int| 0 <= t < s.len() && s[t] == ks[j];
        if t < i {
            assert(!key_faulty(ps, s[t]));
        } else if t > i {
            assert(!key_lt(s[t], s[i]));
        } else {
            lemma_key_lt_total(s[i], s[i]);
        }
    }
    let kk = choose|kk: (Seq<char>, Seq<char>)|
        ks.contains(kk) && key_faulty(ps, kk) && forall|j: int|
            0 <= j < ks.len() && key_faulty(ps, #[trigger] ks[j]) ==> !key_lt(ks[j], kk);
    let u = choose|u: int| 0 <= u < ks.len() && ks[u] == kk;
    assert(!key_lt(ks[u], s[i]));
    assert(!key_lt(ks[w], kk));
    lemma_key_lt_total(kk, s[i]);
}

/// No two chunks share a place and zone.
pub open spec fn distinct_chunk_keys(s: Seq<PlacementChunk>) -> bool {
    forall|i: int, j: int| 0 <= i < j < s.len() ==> ckv(#[trigger] s[i]) != ckv(#[trigger] s[j])
}

proof fn lemma_prev_id_self(prev: Seq<PlacementChunk>, i: int)
    requires
        distinct_chunk_keys(prev),
        0 <= i < prev.len(),
    ensures
        prev_id(prev, ckv(prev[i])) == Some(prev[i].chunk_id.0@),
    decreases prev.len(),
{
    if i < prev.len() - 1 {
        let d = prev.drop_last();
        assert(ckv(prev[i]) != ckv(prev[prev.len() - 1]));
        assert(d[i] == prev[i]);
        assert(distinct_chunk_keys(d)) by {
            assert forall|a: int, b: int| 0 <= a < b < d.len() implies ckv(#[trigger] d[a]) != ckv(#[trigger] d[b]) by {
                assert(d[a] == prev[a] && d[b] == prev[b]);
            }
        }
        lemma_prev_id_self(d, i);
    }
}

/// Diffing a set of chunks (one per place and zone) against itself marks
/// nothing dirty and reuses every chunk: re-cooking an unchanged world
/// rewrites no file.
pub proof fn lemma_diff_unchanged(prev: Seq<PlacementChunk>)
    requires
        distinct_chunk_keys(prev),
    ensures
        changed_keys(prev, prev).len() == 0,
        gone_keys(prev, prev).len() == 0,
        kept_keys(prev, prev) == prev.map_values(|c: PlacementChunk| ckv(c)),
{
    assert forall|k: int| 0 <= k <= prev.len() implies #[trigger] changed_keys(prev, prev.take(k)).len() == 0 && kept_keys(
        prev,
        prev.take(k),
    ) == prev.take(k).map_values(|c: PlacementChunk| ckv(c)) by {
        lemma_diff_self_prefix(prev, k);
    }
    lemma_diff_self_prefix(prev, prev.len() as int);
    assert(prev.take(prev.len() as int) =~= prev);
    lemma_gone_self(prev, prev.len() as int);
}

proof fn lemma_diff_self_prefix(prev: Seq<PlacementChunk>, k: int)
    requires
        distinct_chunk_keys(prev),
        0 <= k <= prev.len(),
    ensures
        changed_keys(prev, prev.take(k)).len() == 0,
        kept_keys(prev, prev.take(k)) == prev.take(k).map_values(|c: PlacementChunk| ckv(c)),
    decreases k,
{
    if k == 0 {
        assert(prev.take(0).map_values(|c: PlacementChunk| ckv(c)) =~= Seq::<(Seq<char>, Seq<char>)>::empty());
    } else {
        lemma_diff_self_prefix(prev, k - 1);
        lemma_prev_id_self(prev, k - 1);
        assert(prev.take(k).drop_last() =~= prev.take(k - 1));
        assert(prev.take(k).last() == prev[k - 1]);
        assert(prev.take(k).map_values(|c: PlacementChunk| ckv(c)) =~= prev.take(k - 1).map_values(
            |c: PlacementChunk| ckv(c),
        ).push(ckv(prev[k - 1])));
    }
}

proof fn lemma_gone_self(prev: Seq<PlacementChunk>, k: int)
    requires
        0 <= k <= prev.len(),
    ensures
        gone_keys(prev.take(k), prev).len() == 0,
    decreases k,
{
    if k > 0 {
        lemma_gone_self(prev, k - 1);
        assert(prev.take(k).drop_last() =~= prev.take(k - 1));
        assert(prev.take(k).last() == prev[k - 1]);
        assert(has_chunk_key(prev, ckv(prev[k - 1])));
    }
}

/// Records in non-decreasing record order.
pub open spec fn records_sorted(t: Seq<PlacementRecord>) -> bool {
    forall|i: int, j: int| 0 <= i < j < t.len() ==> !rec_lt(#[trigger] t[j], #[trigger] t[i])
}

proof fn lemma_rec_order(a: PlacementRecord, b: PlacementRecord, c: PlacementRecord)
    ensures
        !rec_lt(a, a),
        rec_lt(a, b) && rec_lt(b, c) ==> rec_lt(a, c),
        !rec_lt(a, b) && !rec_lt(b, a) ==> a == b,
        !(rec_lt(a, b) && rec_lt(b, a)),
{
}

proof fn lemma_insert_pos_facts(s: Seq<PlacementRecord>, x: PlacementRecord, k: int)
    requires
        0 <= k <= s.len(),
    ensures
        k <= insert_pos(s, x, k) <= s.len(),
        forall|i: int| k <= i < insert_pos(s, x, k) ==> !rec_lt(x, #[trigger] s[i]),
        insert_pos(s, x, k) < s.len() ==> rec_lt(x, s[insert_pos(s, x, k)]),
    decreases s.len() - k,
{
    if k < s.len() && !rec_lt(x, s[k]) {
        lemma_insert_pos_facts(s, x, k + 1);
    }
}

/// Chunk records come out in record order, group then x, y, z, yaw and
/// scale, and are exactly the rows' records.
pub proof fn lemma_records_sorted(s: Seq<PlacementRecord>)
    ensures
        records_sorted(sort_recs(s)),
        sort_recs(s).to_multiset() == s.to_multiset(),
    decreases s.len(),
{
    lemma_sort_recs_len(s);
    if s.len() > 0 {
        lemma_records_sorted(s.drop_last());
        let t = sort_recs(s.drop_last());
        let x = s.last();
        let p = insert_pos(t, x, 0);
        lemma_insert_pos_facts(t, x, 0);
        let u = t.insert(p, x);
        assert forall|i: int, j: int| 0 <= i < j < u.len() implies !rec_lt(#[trigger] u[j], #[trigger] u[i]) by {
            if j < p {
                assert(u[i] == t[i] && u[j] == t[j]);
            } else if j == p {
                assert(u[i] == t[i]);
                lemma_rec_order(x, t[i], t[i]);
            } else if i == p {
                assert(u[j] == t[j - 1]);
                lemma_rec_order(x, t[p], t[j - 1]);
                if j - 1 > p {
                    assert(!rec_lt(t[j - 1], t[p]));
                    lemma_rec_order(t[j - 1], x, t[p]);
                }
            } else if i < p {
                assert(u[i] == t[i] && u[j] == t[j - 1]);
            } else {
                assert(u[i] == t[i - 1] && u[j] == t[j - 1]);
            }
        }
    }
}


/// Two groups hold the same ids, clip, variant and count.
pub open spec fn same_group(a: InstanceGroup, b: InstanceGroup) -> bool {
    &&& a.id.0@ == b.id.0@
    &&& a.mesh.0@ == b.mesh.0@
    &&& a.material.0@ == b.material.0@
    &&& (a.clip is None <==> b.clip is None)
    &&& (a.clip is Some ==> a.clip->Some_0.0@ == b.clip->Some_0.0@)
    &&& a.variant == b.variant
    &&& a.count == b.count
}

/// A chunk the encoder made from rows it accepts, with named place and zone,
/// reads back: its bytes are sound, and whatever reading them yields carries
/// the chunk's place, zone, groups, records, bytes and id.
pub proof fn lemma_encoded_chunk_reads_back(c: PlacementChunk, rows: Seq<RawPlacement>, d: PlacementChunk)
    requires
        encoded(c, c.place@, c.zone@, rows),
        encode_fault(c.place@, c.zone@, rows) is None,
        c.place@.len() > 0,
        c.zone@.len() > 0,
    ensures
        chunk_fault(c.bytes@) is None,
        chunk_read(d, c.bytes@) ==> {
            &&& d.place@ == c.place@
            &&& d.zone@ == c.zone@
            &&& d.bytes@ == c.bytes@
            &&& d.chunk_id.0@ == c.chunk_id.0@
            &&& d.records@ == c.records@
            &&& d.groups@.len() == c.groups@.len()
            &&& forall|j: int| 0 <= j < c.groups@.len() ==> same_group(#[trigger] d.groups@[j], c.groups@[j])
        },
{
    lemma_chunk_round_trip(c.place@, c.zone@, c.groups@, c.records@);
    let b = c.bytes@;
    if chunk_read(d, b) {
        assert forall|j: int| 0 <= j < c.groups@.len() implies same_group(#[trigger] d.groups@[j], c.groups@[j]) by {
            let o = group_off(b, groups_at(b) + 2, j as nat);
            assert(group_matches(d.groups@[j], b, o));
            assert(group_matches(c.groups@[j], b, o));
        }
    }
}


proof fn lemma_first_faulty(ps: Seq<RawPlacement>, s: Seq<(Seq<char>, Seq<char>)>, i: int) -> (j: int)
    requires
        0 <= i < s.len(),
        key_faulty(ps, s[i]),
    ensures
        0 <= j <= i,
        key_faulty(ps, s[j]),
        forall|q: int| 0 <= q < j ==> !key_faulty(ps, #[trigger] s[q]),
    decreases i,
{
    if exists|q: int| 0 <= q < i && key_faulty(ps, #[trigger] s[q]) {
        let q = choose|q: int| 0 <= q < i && key_faulty(ps, #[trigger] s[q]);
        lemma_first_faulty(ps, s, q)
    } else {
        i
    }
}

/// Every chunk of a materialized world whose place and zone are named reads
/// back: its bytes are sound, and whatever reading them yields carries the
/// chunk's place, zone, groups, records, bytes and id.
pub proof fn lemma_world_chunk_reads_back(
    w: MaterializedWorld,
    ps: Seq<RawPlacement>,
    assets: Seq<(BlobId, Vec<u8>)>,
    derived: Seq<BlobId>,
    i: int,
    d: PlacementChunk,
)
    requires
        world_fault(ps, assets, derived) is None,
        world_made(w, ps, assets),
        0 <= i < w.chunks@.len(),
        w.chunks@[i].place@.len() > 0,
        w.chunks@[i].zone@.len() > 0,
    ensures
        chunk_fault(w.chunks@[i].bytes@) is None,
        chunk_read(d, w.chunks@[i].bytes@) ==> {
            &&& d.place@ == w.chunks@[i].place@
            &&& d.zone@ == w.chunks@[i].zone@
            &&& d.bytes@ == w.chunks@[i].bytes@
            &&& d.chunk_id.0@ == w.chunks@[i].chunk_id.0@
            &&& d.records@ == w.chunks@[i].records@
            &&& d.groups@.len() == w.chunks@[i].groups@.len()
            &&& forall|j: int|
                0 <= j < w.chunks@[i].groups@.len() ==> same_group(#[trigger] d.groups@[j], w.chunks@[i].groups@[j])
        },
{
    let c = w.chunks@[i];
    let key = ckv(c);
    let keys = w.chunks@.map_values(|c: PlacementChunk| ckv(c));
    assert(keys[i] == key);
    if key_faulty(ps, keys[i]) {
        let j = lemma_first_faulty(ps, keys, i);
        lemma_distinct_keys_unique(ps, ps.len() as int);
        lemma_least_fault(ps, keys, j);
        assert(false);
    }
    lemma_encoded_chunk_reads_back(c, rows_of(ps, key), d);
}

} // verus!

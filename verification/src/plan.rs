//! Whole-title optimizer records: the fixed pass order, per-pass
//! accounting, the deterministic runtime plan and its byte encoding, and
//! the content-scale limits.
use vstd::prelude::*;
use vstd::string::StringSliceAdditionalSpecFns;

use crate::anchor::{AnchorId, SourceSpan};
use crate::bytes::{append_bytes, pattern32, push_u16, push_u32, u16_bytes, u32_bytes};
use crate::failure::{text, CompileError};
use crate::hash::BlobId;
use crate::material::ShaderPerm;
use crate::names::Name;
use crate::present::QualityTier;
use crate::space::AabbMm;
use crate::units::Sigil;

verus! {

/// Stable optimizer order. Reordering changes the optimized artifact hash.
#[derive(Copy, Clone, PartialEq, Eq, Structural, PartialOrd, Ord, Hash, Debug)]
pub enum OptimizationPass {
    /// Fold algebraic predicate identities without inventing a Boolean atom.
    FoldPredicates,
    /// Remove unreachable labeled rite nodes after specialization.
    EliminateUnreachableRiteNodes,
    /// Record that locked module parameters/patterns were materialized.
    SpecializePatterns,
    /// Share byte-identical compiled predicate programs and rite blobs.
    InternFragments,
    /// Emit stable-id-to-storage table layouts.
    PackTables,
    /// Build sorted place bundles and access groups.
    PlanPlaces,
    /// Keep only used material permutations for each SKU tier.
    PrunePermutations,
    /// Exclude authoring/model/source-map inputs from the runtime plan.
    StripAuthoring,
}

impl OptimizationPass {
    /// Stable human-readable pass id.
    pub fn name(self) -> (r: &'static str)
        ensures
            r@ == match self {
                OptimizationPass::FoldPredicates => "fold-predicates"@,
                OptimizationPass::EliminateUnreachableRiteNodes => "eliminate-unreachable-rite-nodes"@,
                OptimizationPass::SpecializePatterns => "specialize-patterns"@,
                OptimizationPass::InternFragments => "intern-fragments"@,
                OptimizationPass::PackTables => "pack-tables"@,
                OptimizationPass::PlanPlaces => "plan-places"@,
                OptimizationPass::PrunePermutations => "prune-permutations"@,
                OptimizationPass::StripAuthoring => "strip-authoring"@,
            },
    {
        match self {
            OptimizationPass::FoldPredicates => "fold-predicates",
            OptimizationPass::EliminateUnreachableRiteNodes => "eliminate-unreachable-rite-nodes",
            OptimizationPass::SpecializePatterns => "specialize-patterns",
            OptimizationPass::InternFragments => "intern-fragments",
            OptimizationPass::PackTables => "pack-tables",
            OptimizationPass::PlanPlaces => "plan-places",
            OptimizationPass::PrunePermutations => "prune-permutations",
            OptimizationPass::StripAuthoring => "strip-authoring",
        }
    }
}

/// Per-pass accounting and fallback state.
#[derive(Clone, PartialEq, Eq, Debug)]
pub struct PassReport {
    /// Pass.
    pub pass: OptimizationPass,
    /// Logical rows/bytes before the pass.
    pub before: usize,
    /// Logical rows/bytes after the pass.
    pub after: usize,
    /// Whether the candidate survived the equivalence check.
    pub applied: bool,
    /// First divergent case when the pass fell back.
    pub fallback_case: Option<Name>,
}

/// Whole-title optimizer measurements. Ratios are diagnostics, not limits.
#[derive(Clone, PartialEq, Eq, Debug)]
pub struct OptimizationReport {
    /// Reports in [`OptimizationPass`] order.
    pub passes: Vec<PassReport>,
    /// Reference predicate rows.
    pub reference_predicates: usize,
    /// Optimized predicate rows.
    pub optimized_predicates: usize,
    /// Canonical reference document bytes.
    pub reference_doc_bytes: usize,
    /// Canonical optimized document bytes.
    pub optimized_doc_bytes: usize,
}

/// Result of comparing a reference and optimized corpus.
#[derive(Clone, PartialEq, Eq, Debug)]
pub struct EquivalenceReport {
    /// Sorted case ids compared.
    pub cases: Vec<Name>,
}

/// One place's whole-title asset and locality input.
#[derive(Clone, PartialEq, Eq, Debug)]
pub struct PlacePlanInput {
    /// Place identity.
    pub place: Sigil,
    /// Coarse residency bounds.
    pub aabb: AabbMm,
    /// Referenced CAS blobs. Duplicates are accepted and removed.
    pub assets: Vec<BlobId>,
    /// Measured deterministic access group.
    pub access_group: u16,
}

/// One SKU's used material permutations.
#[derive(Clone, PartialEq, Eq, Debug)]
pub struct SkuPlanInput {
    /// Stable SKU id.
    pub sku: Name,
    /// Quality floor.
    pub tier: QualityTier,
    /// Permutations reached by authored materials before tier pruning.
    pub used_permutations: Vec<ShaderPerm>,
}

/// Inputs that do not affect authoritative canon semantics.
#[derive(Clone, PartialEq, Eq, Debug)]
pub struct WholeTitleRequest {
    /// Place bundle inputs.
    pub places: Vec<PlacePlanInput>,
    /// SKU presentation inputs.
    pub skus: Vec<SkuPlanInput>,
    /// Candidate auxiliary files by path, ascending and unique. Authoring-only
    /// paths are stripped.
    pub auxiliary_files: Vec<(String, Vec<u8>)>,
}

/// Stable table identity mapped to a packed storage index.
#[derive(Clone, PartialEq, Eq, Debug)]
pub struct PackedRow {
    /// Semantic table name.
    pub table: &'static str,
    /// Stable semantic id.
    pub stable_id: u16,
    /// Physical index in the optimized table.
    pub storage_index: u16,
}

/// Sorted, deduplicated place bundle.
#[derive(Clone, PartialEq, Eq, Debug)]
pub struct PlaceBundlePlan {
    /// Place identity.
    pub place: Sigil,
    /// Coarse residency bounds; presentation optimization cannot alter it.
    pub aabb: AabbMm,
    /// Sorted unique blob ids.
    pub assets: Vec<BlobId>,
    /// Deterministic locality group.
    pub access_group: u16,
}

/// Pruned presentation plan for one SKU.
#[derive(Clone, PartialEq, Eq, Debug)]
pub struct SkuBundlePlan {
    /// SKU id.
    pub sku: Name,
    /// Sorted packed permutation ids.
    pub permutations: Vec<u8>,
}

/// Explicit runtime layout selected by the optimized cook.
#[derive(Clone, PartialEq, Eq, Debug)]
pub struct WholeTitlePlan {
    /// Stable semantic table mappings.
    pub tables: Vec<PackedRow>,
    /// Place plans sorted by access group then place identity.
    pub places: Vec<PlaceBundlePlan>,
    /// SKU plans sorted by id.
    pub skus: Vec<SkuBundlePlan>,
    /// Runtime-safe auxiliary files by path, ascending and unique.
    pub runtime_files: Vec<(String, Vec<u8>)>,
    /// Paths deliberately removed from the ship graph.
    pub stripped_paths: Vec<String>,
    /// Content hash of the deterministic encoded plan.
    pub hash: crate::hash::Hash,
}

/// Content-scale accounting over an optimized place/CAS plan.
#[derive(Clone, PartialEq, Eq, Structural, Debug)]
pub struct ScaleReport {
    /// Number of logical places.
    pub places: usize,
    /// Total place-to-blob references after per-place deduplication.
    pub references: usize,
    /// Distinct referenced CAS blobs.
    pub unique_blobs: usize,
    /// Bytes occupied by distinct referenced blobs.
    pub unique_bytes: usize,
    /// Unique bytes plus the encoded runtime plan.
    pub package_bytes: usize,
    /// References per unique blob in fixed-point thousandths.
    pub instancing_ratio_milli: u32,
}

/// Hard product limits for a content-scale plan.
#[derive(Clone, PartialEq, Eq, Structural, Debug)]
pub struct ScaleLimits {
    /// Maximum logical places.
    pub places: usize,
    /// Maximum distinct referenced blobs.
    pub unique_blobs: usize,
    /// Maximum distinct blob bytes.
    pub unique_bytes: usize,
    /// Maximum complete package bytes.
    pub package_bytes: usize,
}

/// Fail when a measured scale plan exceeds any product cap.
pub fn check_scale(report: &ScaleReport, limits: &ScaleLimits) -> (r: Result<(), CompileError>)
    ensures
        (report.places <= limits.places && report.unique_blobs <= limits.unique_blobs
            && report.unique_bytes <= limits.unique_bytes && report.package_bytes
            <= limits.package_bytes) ==> r is Ok,
        !(report.places <= limits.places && report.unique_blobs <= limits.unique_blobs
            && report.unique_bytes <= limits.unique_bytes && report.package_bytes
            <= limits.package_bytes) ==> (r matches Err(CompileError::Optimization(m)) && m@
            == "content-scale plan exceeds product limits"@),
{
    if report.places > limits.places || report.unique_blobs > limits.unique_blobs || report.unique_bytes
        > limits.unique_bytes || report.package_bytes > limits.package_bytes {
        return Err(CompileError::Optimization(text("content-scale plan exceeds product limits")));
    }
    Ok(())
}

/// Debug-only map from optimized semantic rows to authoring identity.
#[derive(Clone, PartialEq, Eq, Debug)]
pub struct OptimizedSourceMap {
    /// Sorted source entries.
    pub entries: Vec<SourceMapEntry>,
}

/// One optimized row's source identity.
#[derive(Clone, PartialEq, Eq, Debug)]
pub struct SourceMapEntry {
    /// `law`, `affordance`, `rite`, or `beat`.
    pub table: &'static str,
    /// Stable table id.
    pub stable_id: u16,
    /// Immutable authoring identity.
    pub anchor: AnchorId,
    /// Original modular span when available.
    pub span: Option<SourceSpan>,
}

/// The first entry at or after `k` for `table` and `stable_id`.
pub open spec fn first_entry(e: Seq<SourceMapEntry>, table: Seq<char>, stable_id: u16, k: int) -> Option<int>
    decreases e.len() - k,
{
    if k < 0 || k >= e.len() {
        None
    } else if e[k].table@ == table && e[k].stable_id == stable_id {
        Some(k)
    } else {
        first_entry(e, table, stable_id, k + 1)
    }
}

/// Debug view over a cook-owned source map. Never packaged into the
/// default game artifact.
pub struct OptimizationMap<'a> {
    map: &'a OptimizedSourceMap,
}

impl<'a> OptimizationMap<'a> {
    /// The borrowed source map (spec).
    pub closed spec fn source(&self) -> OptimizedSourceMap {
        *self.map
    }

    /// Borrow a source map emitted by the whole-title cook.
    pub fn new(map: &'a OptimizedSourceMap) -> (r: OptimizationMap<'a>)
        ensures
            r.source() == *map,
    {
        OptimizationMap { map }
    }

    /// Resolve a stable semantic row back to its immutable authoring anchor:
    /// the first entry for that table and id.
    pub fn resolve(&self, table: &str, stable_id: u16) -> (r: Option<&'a SourceMapEntry>)
        ensures
            match first_entry(self.source().entries@, table@, stable_id, 0) {
                Some(i) => r matches Some(e) && *e == self.source().entries@[i],
                None => r is None,
            },
    {
        let entries = &self.map.entries;
        let mut i: usize = 0;
        while i < entries.len()
            invariant
                0 <= i <= entries@.len(),
                entries@ == self.source().entries@,
                first_entry(entries@, table@, stable_id, 0) == first_entry(entries@, table@, stable_id, i as int),
            decreases entries@.len() - i,
        {
            let e = &entries[i];
            if crate::diag::str_eq(e.table, table) && e.stable_id == stable_id {
                return Some(e);
            }
            i = i + 1;
        }
        None
    }
}

// ---------------------------------------------------------------------------
// Runtime plan bytes.

/// Little-endian bytes of `x`, `n` of them.
pub open spec fn le_bytes(x: int, n: nat) -> Seq<u8>
    decreases n,
{
    if n == 0 {
        Seq::empty()
    } else {
        seq![(x % 256) as u8] + le_bytes(x / 256, (n - 1) as nat)
    }
}

/// A length-prefixed field: 32-bit length, then the bytes.
pub open spec fn field(b: Seq<u8>) -> Seq<u8> {
    u32_bytes(b.len() as int) + b
}

/// One packed row: table name field, stable id, storage index.
pub open spec fn row_bytes(r: PackedRow) -> Seq<u8> {
    field(r.table.spec_bytes()) + u16_bytes(r.stable_id as int) + u16_bytes(r.storage_index as int)
}

/// Rows in order.
pub open spec fn rows_bytes(s: Seq<PackedRow>) -> Seq<u8>
    decreases s.len(),
{
    if s.len() == 0 {
        Seq::empty()
    } else {
        rows_bytes(s.drop_last()) + row_bytes(s.last())
    }
}

/// Blob ids in order, 32 bytes each.
pub open spec fn assets_bytes(s: Seq<BlobId>) -> Seq<u8>
    decreases s.len(),
{
    if s.len() == 0 {
        Seq::empty()
    } else {
        assets_bytes(s.drop_last()) + s.last().0@
    }
}

/// The six box coordinates, min then max, x/y/z, as 32-bit patterns.
pub open spec fn aabb_bytes(b: AabbMm) -> Seq<u8> {
    u32_bytes(pattern32(b.min.x as int)) + u32_bytes(pattern32(b.min.y as int)) + u32_bytes(
        pattern32(b.min.z as int),
    ) + u32_bytes(pattern32(b.max.x as int)) + u32_bytes(pattern32(b.max.y as int)) + u32_bytes(
        pattern32(b.max.z as int),
    )
}

/// One place: 128-bit identity, box, access group, counted assets.
pub open spec fn place_bytes(p: PlaceBundlePlan) -> Seq<u8> {
    le_bytes(p.place.spec_raw() as int, 16) + aabb_bytes(p.aabb) + u16_bytes(p.access_group as int)
        + u32_bytes(p.assets@.len() as int) + assets_bytes(p.assets@)
}

/// Places in order.
pub open spec fn places_bytes(s: Seq<PlaceBundlePlan>) -> Seq<u8>
    decreases s.len(),
{
    if s.len() == 0 {
        Seq::empty()
    } else {
        places_bytes(s.drop_last()) + place_bytes(s.last())
    }
}

/// One SKU: its id field, then its counted permutation ids.
pub open spec fn sku_bytes(s: SkuBundlePlan) -> Seq<u8> {
field(utf8_of(s.sku@)) + field(s.permutations@)
}

/// SKUs in order.
pub open spec fn skus_bytes(s: Seq<SkuBundlePlan>) -> Seq<u8>
    decreases s.len(),
{
    if s.len() == 0 {
        Seq::empty()
    } else {
        skus_bytes(s.drop_last()) + sku_bytes(s.last())
    }
}

/// One runtime file: its path field, then its counted contents.
pub open spec fn file_bytes(f: (String, Vec<u8>)) -> Seq<u8> {
field(utf8_of(f.0@)) + field(f.1@)
}

/// Runtime files in order.
pub open spec fn files_bytes(s: Seq<(String, Vec<u8>)>) -> Seq<u8>
    decreases s.len(),
{
    if s.len() == 0 {
        Seq::empty()
    } else {
        files_bytes(s.drop_last()) + file_bytes(s.last())
    }
}

/// UTF-8 bytes of a character sequence.
pub open spec fn utf8_of(s: Seq<char>) -> Seq<u8> {
    vstd::utf8::encode_utf8(s)
}

/// A byte count fits the 32-bit length prefix.
pub open spec fn fits32(n: int) -> bool {
    n <= u32::MAX
}

/// Every length the encoding writes fits its 32-bit prefix.
pub open spec fn plan_fits(p: WholeTitlePlan) -> bool {
    &&& fits32(p.tables@.len() as int)
    &&& forall|i: int| 0 <= i < p.tables@.len() ==> fits32(#[trigger] p.tables@[i].table.spec_bytes().len() as int)
    &&& fits32(p.places@.len() as int)
    &&& forall|i: int| 0 <= i < p.places@.len() ==> fits32(#[trigger] p.places@[i].assets@.len() as int)
    &&& fits32(p.skus@.len() as int)
    &&& skus_fit(p.skus@)
    &&& fits32(p.runtime_files@.len() as int)
    &&& files_fit(p.runtime_files@)
}

/// The runtime plan bytes: `KOPT`, version 1, then counted tables, places,
/// SKUs and runtime files. The hash, source maps and stripped paths are not
/// encoded.
pub open spec fn spec_plan_bytes(p: WholeTitlePlan) -> Seq<u8> {
    seq![75u8, 79, 80, 84, 1] + u32_bytes(p.tables@.len() as int) + rows_bytes(p.tables@) + u32_bytes(
        p.places@.len() as int,
    ) + places_bytes(p.places@) + u32_bytes(p.skus@.len() as int) + skus_bytes(p.skus@) + u32_bytes(
        p.runtime_files@.len() as int,
    ) + files_bytes(p.runtime_files@)
}

fn plan_length_error() -> (r: CompileError)
    ensures
        r matches CompileError::Optimization(m) && m@ == "plan length"@,
{
    CompileError::Optimization(text("plan length"))
}

/// Write a 32-bit length prefix, or fail when it does not fit.
fn put_len(out: &mut Vec<u8>, len: usize) -> (r: Result<(), CompileError>)
    ensures
        fits32(len as int) <==> r is Ok,
        fits32(len as int) ==> final(out)@ == old(out)@ + u32_bytes(len as int),
        !fits32(len as int) ==> (r matches Err(CompileError::Optimization(m)) && m@ == "plan length"@),
{
    if len > 0xffff_ffff {
        return Err(plan_length_error());
    }
    push_u32(out, len as u32);
    Ok(())
}

/// Write a length-prefixed field.
fn put_field(out: &mut Vec<u8>, b: &[u8]) -> (r: Result<(), CompileError>)
    ensures
        fits32(b@.len() as int) <==> r is Ok,
        fits32(b@.len() as int) ==> final(out)@ == old(out)@ + field(b@),
        !fits32(b@.len() as int) ==> (r matches Err(CompileError::Optimization(m)) && m@ == "plan length"@),
{
    put_len(out, b.len())?;
    append_bytes(out, b);
    assert(final(out)@ =~= old(out)@ + field(b@));
    Ok(())
}

fn push_le128(out: &mut Vec<u8>, x: u128)
    ensures
        final(out)@ == old(out)@ + le_bytes(x as int, 16),
{
    let ghost start = out@;
    let mut cur: u128 = x;
    let mut i: usize = 0;
    while i < 16
        invariant
            0 <= i <= 16,
            out@ + le_bytes(cur as int, (16 - i) as nat) == start + le_bytes(x as int, 16),
        decreases 16 - i,
    {
        let ghost before = out@;
        out.push((cur % 256) as u8);
        proof {
            assert(le_bytes(cur as int, (16 - i) as nat) == seq![(cur % 256) as u8] + le_bytes(
                cur as int / 256,
                (16 - i - 1) as nat,
            ));
            assert(out@ + le_bytes(cur as int / 256, (16 - i - 1) as nat) =~= before + le_bytes(
                cur as int,
                (16 - i) as nat,
            ));
        }
        cur = cur / 256;
        i = i + 1;
    }
    assert(le_bytes(cur as int, 0) =~= Seq::<u8>::empty());
    assert(out@ =~= start + le_bytes(x as int, 16));
}

fn push_i32(out: &mut Vec<u8>, v: i32)
    ensures
        final(out)@ == old(out)@ + u32_bytes(pattern32(v as int)),
{
    let p: u32 = if v < 0 {
        (v as i64 + 0x1_0000_0000i64) as u32
    } else {
        v as u32
    };
    push_u32(out, p);
}

fn encode_place(out: &mut Vec<u8>, place: &PlaceBundlePlan) -> (r: Result<(), CompileError>)
    ensures
        fits32(place.assets@.len() as int) ==> r is Ok && final(out)@ == old(out)@ + place_bytes(*place),
        !fits32(place.assets@.len() as int) ==> (r matches Err(CompileError::Optimization(m)) && m@
            == "plan length"@),
{
    let ghost start = out@;
    push_le128(out, place.place.raw());
    push_i32(out, place.aabb.min.x);
    push_i32(out, place.aabb.min.y);
    push_i32(out, place.aabb.min.z);
    push_i32(out, place.aabb.max.x);
    push_i32(out, place.aabb.max.y);
    push_i32(out, place.aabb.max.z);
    push_u16(out, place.access_group);
    put_len(out, place.assets.len())?;
    let ghost head = out@;
    let mut k: usize = 0;
    while k < place.assets.len()
        invariant
            0 <= k <= place.assets@.len(),
            out@ == head + assets_bytes(place.assets@.take(k as int)),
        decreases place.assets@.len() - k,
    {
        let a = place.assets[k].as_bytes();
        append_bytes(out, a);
        proof {
            assert(place.assets@.take(k + 1).drop_last() =~= place.assets@.take(k as int));
        }
        k = k + 1;
    }
    proof {
        assert(place.assets@.take(place.assets@.len() as int) =~= place.assets@);
        assert(out@ =~= start + place_bytes(*place));
    }
    Ok(())
}

fn encode_tables(out: &mut Vec<u8>, tables: &Vec<PackedRow>) -> (r: Result<(), CompileError>)
    ensures
        (forall|j: int| 0 <= j < tables@.len() ==> fits32(#[trigger] tables@[j].table.spec_bytes().len() as int))
            ==> r is Ok && final(out)@ == old(out)@ + rows_bytes(tables@),
        r is Ok ==> (forall|j: int| 0 <= j < tables@.len() ==> fits32(#[trigger] tables@[j].table.spec_bytes().len() as int)),
        r is Err ==> (exists|j: int| 0 <= j < tables@.len() && !fits32(#[trigger] tables@[j].table.spec_bytes().len() as int))
            && (r matches Err(CompileError::Optimization(m)) && m@ == "plan length"@),
{
    let ghost start = out@;
    let mut i: usize = 0;
    while i < tables.len()
        invariant
            0 <= i <= tables@.len(),
            out@ == start + rows_bytes(tables@.take(i as int)),
            forall|j: int| 0 <= j < i ==> fits32(#[trigger] tables@[j].table.spec_bytes().len() as int),
        decreases tables@.len() - i,
    {
        let row = &tables[i];
        match put_field(out, row.table.as_bytes()) {
            Ok(()) => {},
            Err(e) => {
                assert(!fits32(tables@[i as int].table.spec_bytes().len() as int));
                return Err(e);
            },
        }
        push_u16(out, row.stable_id);
        push_u16(out, row.storage_index);
        proof {
            assert(tables@.take(i + 1).drop_last() =~= tables@.take(i as int));
            assert(out@ =~= start + rows_bytes(tables@.take(i + 1)));
        }
        i = i + 1;
    }
    assert(tables@.take(tables@.len() as int) =~= tables@);
    Ok(())
}

fn encode_places(out: &mut Vec<u8>, places: &Vec<PlaceBundlePlan>) -> (r: Result<(), CompileError>)
    ensures
        (forall|j: int| 0 <= j < places@.len() ==> fits32(#[trigger] places@[j].assets@.len() as int)) ==> r is Ok
            && final(out)@ == old(out)@ + places_bytes(places@),
        r is Ok ==> (forall|j: int| 0 <= j < places@.len() ==> fits32(#[trigger] places@[j].assets@.len() as int)),
        r is Err ==> (exists|j: int| 0 <= j < places@.len() && !fits32(#[trigger] places@[j].assets@.len() as int))
            && (r matches Err(CompileError::Optimization(m)) && m@ == "plan length"@),
{
    let ghost start = out@;
    let mut i: usize = 0;
    while i < places.len()
        invariant
            0 <= i <= places@.len(),
            out@ == start + places_bytes(places@.take(i as int)),
            forall|j: int| 0 <= j < i ==> fits32(#[trigger] places@[j].assets@.len() as int),
        decreases places@.len() - i,
    {
        match encode_place(out, &places[i]) {
            Ok(()) => {},
            Err(e) => {
                assert(!fits32(places@[i as int].assets@.len() as int));
                return Err(e);
            },
        }
        proof {
            assert(places@.take(i + 1).drop_last() =~= places@.take(i as int));
            assert(out@ =~= start + places_bytes(places@.take(i + 1)));
        }
        i = i + 1;
    }
    assert(places@.take(places@.len() as int) =~= places@);
    Ok(())
}

/// Every SKU's id and permutation count fit their prefixes.
pub open spec fn skus_fit(skus: Seq<SkuBundlePlan>) -> bool {
    forall|j: int|
        0 <= j < skus.len() ==> fits32(utf8_of(#[trigger] skus[j].sku@).len() as int) && fits32(
            skus[j].permutations@.len() as int,
        )
}

/// Every runtime file's path and contents fit their prefixes.
pub open spec fn files_fit(files: Seq<(String, Vec<u8>)>) -> bool {
    forall|j: int|
        0 <= j < files.len() ==> fits32(utf8_of(#[trigger] files[j].0@).len() as int) && fits32(
            files[j].1@.len() as int,
        )
}

proof fn lemma_skus_fit_extend(s: Seq<SkuBundlePlan>, i: int)
    requires
        0 <= i < s.len(),
        skus_fit(s.take(i)),
        fits32(utf8_of(s[i].sku@).len() as int),
        fits32(s[i].permutations@.len() as int),
    ensures
        skus_fit(s.take(i + 1)),
{
    assert forall|j: int| 0 <= j < i + 1 implies fits32(utf8_of(#[trigger] s.take(i + 1)[j].sku@).len() as int)
        && fits32(s.take(i + 1)[j].permutations@.len() as int) by {
        assert(s.take(i + 1)[j] == s[j]);
        if j < i {
            assert(s.take(i)[j] == s[j]);
        }
    }
}

proof fn lemma_files_fit_extend(s: Seq<(String, Vec<u8>)>, i: int)
    requires
        0 <= i < s.len(),
        files_fit(s.take(i)),
        fits32(utf8_of(s[i].0@).len() as int),
        fits32(s[i].1@.len() as int),
    ensures
        files_fit(s.take(i + 1)),
{
    assert forall|j: int| 0 <= j < i + 1 implies fits32(utf8_of(#[trigger] s.take(i + 1)[j].0@).len() as int)
        && fits32(s.take(i + 1)[j].1@.len() as int) by {
        assert(s.take(i + 1)[j] == s[j]);
        if j < i {
            assert(s.take(i)[j] == s[j]);
        }
    }
}

#[verifier::rlimit(40)]
fn encode_skus(out: &mut Vec<u8>, skus: &Vec<SkuBundlePlan>) -> (r: Result<(), CompileError>)
    ensures
        skus_fit(skus@) ==> r is Ok && final(out)@ == old(out)@ + skus_bytes(skus@),
        r is Ok ==> skus_fit(skus@),
        r is Err ==> !skus_fit(skus@) && (r matches Err(CompileError::Optimization(m)) && m@ == "plan length"@),
{
    let ghost start = out@;
    let mut i: usize = 0;
    while i < skus.len()
        invariant
            0 <= i <= skus@.len(),
            out@ == start + skus_bytes(skus@.take(i as int)),
            skus_fit(skus@.take(i as int)),
        decreases skus@.len() - i,
    {
        let sku = &skus[i];
        let ghost before = out@;
        let name = sku.sku.as_str();
        match put_field(out, name.as_bytes()) {
            Ok(()) => {},
            Err(e) => {
                assert(!fits32(utf8_of(skus@[i as int].sku@).len() as int));
                assert(!skus_fit(skus@));
                return Err(e);
            },
        }
        match put_field(out, sku.permutations.as_slice()) {
            Ok(()) => {},
            Err(e) => {
                assert(!fits32(skus@[i as int].permutations@.len() as int));
                assert(!skus_fit(skus@));
                return Err(e);
            },
        }
        proof {
            assert(out@ =~= before + sku_bytes(*sku));
            assert(skus@.take(i + 1).drop_last() =~= skus@.take(i as int));
            assert(name@ == skus@[i as int].sku@);
            assert(fits32(utf8_of(skus@[i as int].sku@).len() as int));
            assert(fits32(skus@[i as int].permutations@.len() as int));
            lemma_skus_fit_extend(skus@, i as int);
            assert(out@ =~= start + skus_bytes(skus@.take(i + 1)));
        }
        i = i + 1;
    }
    assert(skus@.take(skus@.len() as int) =~= skus@);
    Ok(())
}

#[verifier::rlimit(40)]
fn encode_files(out: &mut Vec<u8>, files: &Vec<(String, Vec<u8>)>) -> (r: Result<(), CompileError>)
    ensures
        files_fit(files@) ==> r is Ok && final(out)@ == old(out)@ + files_bytes(files@),
        r is Ok ==> files_fit(files@),
        r is Err ==> !files_fit(files@) && (r matches Err(CompileError::Optimization(m)) && m@ == "plan length"@),
{
    let ghost start = out@;
    let mut i: usize = 0;
    while i < files.len()
        invariant
            0 <= i <= files@.len(),
            out@ == start + files_bytes(files@.take(i as int)),
            files_fit(files@.take(i as int)),
        decreases files@.len() - i,
    {
        let file = &files[i];
        let ghost before = out@;
        let path = file.0.as_str();
        match put_field(out, path.as_bytes()) {
            Ok(()) => {},
            Err(e) => {
                assert(!fits32(utf8_of(files@[i as int].0@).len() as int));
                assert(!files_fit(files@));
                return Err(e);
            },
        }
        match put_field(out, file.1.as_slice()) {
            Ok(()) => {},
            Err(e) => {
                assert(!fits32(files@[i as int].1@.len() as int));
                assert(!files_fit(files@));
                return Err(e);
            },
        }
        proof {
            assert(out@ =~= before + file_bytes(*file));
            assert(files@.take(i + 1).drop_last() =~= files@.take(i as int));
            assert(path@ == files@[i as int].0@);
            assert(fits32(utf8_of(files@[i as int].0@).len() as int));
            assert(fits32(files@[i as int].1@.len() as int));
            lemma_files_fit_extend(files@, i as int);
            assert(out@ =~= start + files_bytes(files@.take(i + 1)));
        }
        i = i + 1;
    }
    assert(files@.take(files@.len() as int) =~= files@);
    Ok(())
}

/// Deterministic runtime plan bytes: `KOPT`, version 1, counted tables,
/// places, SKUs and runtime files, each length a 32-bit prefix. Source maps,
/// stripped paths and the hash are deliberately absent. Fails when a length
/// does not fit its prefix.
#[verifier::rlimit(30)]
pub fn encode_whole_title_plan(plan: &WholeTitlePlan) -> (r: Result<Vec<u8>, CompileError>)
    ensures
        plan_fits(*plan) ==> (r matches Ok(b) && b@ == spec_plan_bytes(*plan)),
        !plan_fits(*plan) ==> (r matches Err(CompileError::Optimization(m)) && m@ == "plan length"@),
{
    let mut out: Vec<u8> = Vec::new();
    out.push(75);
    out.push(79);
    out.push(80);
    out.push(84);
    out.push(1);
    assert(out@ =~= seq![75u8, 79, 80, 84, 1]);
    if put_len(&mut out, plan.tables.len()).is_err() {
        return Err(plan_length_error());
    }
    if encode_tables(&mut out, &plan.tables).is_err() {
        return Err(plan_length_error());
    }
    let ghost p1 = out@;
    if put_len(&mut out, plan.places.len()).is_err() {
        return Err(plan_length_error());
    }
    if encode_places(&mut out, &plan.places).is_err() {
        return Err(plan_length_error());
    }
    let ghost p2 = out@;
    if put_len(&mut out, plan.skus.len()).is_err() {
        return Err(plan_length_error());
    }
    if encode_skus(&mut out, &plan.skus).is_err() {
        return Err(plan_length_error());
    }
    let ghost p3 = out@;
    if put_len(&mut out, plan.runtime_files.len()).is_err() {
        return Err(plan_length_error());
    }
    if encode_files(&mut out, &plan.runtime_files).is_err() {
        return Err(plan_length_error());
    }
    proof {
        assert(plan_fits(*plan));
    }
    Ok(out)
}

/// The runtime bytes depend only on the tables, places, SKUs and runtime
/// files: the hash and the stripped paths never reach them.
pub proof fn lemma_plan_bytes_ignore_hash_and_stripped(p: WholeTitlePlan, q: WholeTitlePlan)
    requires
        p.tables@ == q.tables@,
        p.places@ == q.places@,
        p.skus@ == q.skus@,
        p.runtime_files@ == q.runtime_files@,
    ensures
        spec_plan_bytes(p) == spec_plan_bytes(q),
        plan_fits(p) == plan_fits(q),
{
}

/// The decision after an optimizer pass's candidate was replayed against
/// the reference corpus: an equivalent candidate is kept and reports its
/// size; a divergent one falls back, keeps the size from before the pass
/// and names the first divergent case; any other failure stops the cook.
/// The `bool` says whether the candidate is kept.
pub fn pass_verdict(
    pass: OptimizationPass,
    before: usize,
    after: usize,
    verdict: Result<EquivalenceReport, CompileError>,
) -> (r: Result<(PassReport, bool), CompileError>)
    ensures
        verdict is Ok ==> r == Ok::<(PassReport, bool), CompileError>(
            (PassReport { pass, before, after, applied: true, fallback_case: None }, true),
        ),
        verdict matches Err(CompileError::Equivalence(case)) ==> (r matches Ok((rep, kept)) && !kept && rep.pass
            == pass && rep.before == before && rep.after == before && !rep.applied && rep.fallback_case is Some
            && rep.fallback_case->Some_0@ == case@),
        verdict is Err && !(verdict->Err_0 is Equivalence) ==> r == Err::<(PassReport, bool), CompileError>(
            verdict->Err_0,
        ),
{
    match verdict {
        Ok(_) => Ok((PassReport { pass, before, after, applied: true, fallback_case: None }, true)),
        Err(CompileError::Equivalence(case)) => Ok(
            (PassReport { pass, before, after: before, applied: false, fallback_case: Some(Name::of(case.as_str())) }, false),
        ),
        Err(e) => Err(e),
    }
}

} // verus!

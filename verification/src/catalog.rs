//! Catalog outputs: the manifest of written volumes and place shards, the
//! incremental cook report, and artifact-license coverage.
use vstd::prelude::*;

use crate::failure::{text, CompileError};
use crate::space::AabbMm;
use crate::units::Sigil;

verus! {

/// Catalog file name under the output directory.
pub const CATALOG_FILE: &'static str = "catalog.kwrp";

/// Paths and hashes written for one catalog.
#[derive(Clone, PartialEq, Eq, Debug)]
pub struct CatalogManifest {
    /// `catalog.kwrp` path.
    pub catalog_path: String,
    /// Cook digest.
    pub canon_hash: crate::hash::Hash,
    /// Volume file content hashes and paths, in write order.
    pub volumes: Vec<(crate::hash::Hash, String)>,
    /// Place shards in sigil order.
    pub places: Vec<PlaceCatalogEntry>,
}

/// One place shard on disk.
#[derive(Clone, PartialEq, Eq, Debug)]
pub struct PlaceCatalogEntry {
    /// Place locus.
    pub place: Sigil,
    /// Coarse bounds.
    pub aabb: AabbMm,
    /// BLAKE3 digest of the shard file.
    pub shard_id: crate::hash::Hash,
    /// Shard path.
    pub shard_path: String,
    /// Capture prefix stored on the shard.
    pub prefix: crate::hash::Hash,
}

/// Files changed or reused by an incremental catalog cook.
#[derive(Clone, PartialEq, Eq, Debug)]
pub struct IncrementalCatalog {
    /// Complete output manifest.
    pub manifest: CatalogManifest,
    /// Place shards whose bytes changed and were written.
    pub dirty_places: Vec<Sigil>,
    /// Place shards already identical on disk.
    pub reused_places: Vec<Sigil>,
    /// Volume paths whose bytes changed and were written.
    pub dirty_volumes: Vec<String>,
    /// Volume paths already identical on disk.
    pub reused_volumes: Vec<String>,
    /// Artifact-license coverage at export time.
    pub license_coverage: LicenseCoverage,
}

/// Artifact-license coverage checked before a catalog may be exported.
#[derive(Copy, Clone, PartialEq, Eq, Structural, Debug)]
pub struct LicenseCoverage {
    /// Artifact nodes present in the provenance graph.
    pub artifacts: usize,
    /// Artifact nodes carrying an exportable license.
    pub exportable: usize,
}

impl LicenseCoverage {
    /// Integer coverage percentage (floor, taken as a byte). An empty
    /// artifact set is fully covered.
    pub fn percent(self) -> (r: u8)
        requires
            self.exportable * 100 <= usize::MAX,
        ensures
            self.artifacts == 0 ==> r == 100,
            self.artifacts != 0 ==> r == ((self.exportable * 100) / (self.artifacts as int)) as u8,
    {
        let scaled = self.exportable * 100;
        match scaled.checked_div(self.artifacts) {
            Some(p) => #[verifier::truncate] (p as u8),
            None => 100,
        }
    }

    /// `true` only when every artifact is licensed for export.
    pub fn is_complete(self) -> (r: bool)
        ensures
            r == (self.artifacts == self.exportable),
    {
        self.artifacts == self.exportable
    }
}

/// Place-snap key: the packed Place identity.
pub open spec fn snap_key(snaps: Seq<(Sigil, crate::hash::Hash)>, i: int) -> int {
    snaps[i].0.spec_raw() as int
}

/// Snap `i` comes before snap `j`: by Place identity, then input position.
pub open spec fn snap_before(snaps: Seq<(Sigil, crate::hash::Hash)>, i: int, j: int) -> bool {
    snap_key(snaps, i) < snap_key(snaps, j) || (snap_key(snaps, i) == snap_key(snaps, j) && i < j)
}

/// Position `i` occurs in `ord`.
pub open spec fn listed(ord: Seq<usize>, i: int) -> bool {
    exists|k: int| 0 <= k < ord.len() && #[trigger] ord[k] == i
}

/// `ord` lists every snap position once, in Place order (ties in input order).
pub open spec fn is_place_order(snaps: Seq<(Sigil, crate::hash::Hash)>, ord: Seq<usize>) -> bool {
    &&& ord.len() == snaps.len()
    &&& forall|k: int| 0 <= k < ord.len() ==> (#[trigger] ord[k]) < snaps.len()
    &&& forall|i: int| 0 <= i < snaps.len() ==> #[trigger] listed(ord, i)
    &&& forall|a: int, b: int| 0 <= a < b < ord.len() ==> snap_before(snaps, #[trigger] ord[a] as int, #[trigger] ord[b] as int)
}

/// Why the snap at place-order position `k` is refused: a canon digest
/// that disagrees with the cook's, or the same Place as its predecessor.
pub open spec fn snap_fault(canon: Seq<u8>, snaps: Seq<(Sigil, crate::hash::Hash)>, ord: Seq<usize>, k: int) -> Option<Seq<char>> {
    if snaps[ord[k] as int].1.0@ != canon {
        Some("place canon hash mismatch"@)
    } else if k > 0 && snap_key(snaps, ord[k] as int) == snap_key(snaps, ord[k - 1] as int) {
        Some("duplicate place"@)
    } else {
        None
    }
}

/// The first refused snap among the first `m` in place order.
pub open spec fn snaps_fault(canon: Seq<u8>, snaps: Seq<(Sigil, crate::hash::Hash)>, ord: Seq<usize>, m: nat) -> Option<Seq<char>>
    decreases m,
{
    if m == 0 {
        None
    } else {
        match snaps_fault(canon, snaps, ord, (m - 1) as nat) {
            Some(e) => Some(e),
            None => snap_fault(canon, snaps, ord, m - 1),
        }
    }
}

fn same_digest(a: &crate::hash::Hash, b: &crate::hash::Hash) -> (r: bool)
    ensures
        r == (a.0@ == b.0@),
{
    let mut i: usize = 0;
    while i < 32
        invariant
            i <= 32,
            forall|j: int| 0 <= j < i ==> a.0@[j] == b.0@[j],
        decreases 32 - i,
    {
        if a.0[i] != b.0[i] {
            return false;
        }
        i = i + 1;
    }
    assert(a.0@ =~= b.0@);
    true
}

fn place_order(snaps: &[(Sigil, crate::hash::Hash)]) -> (ord: Vec<usize>)
    ensures
        is_place_order(snaps@, ord@),
{
    let mut ord: Vec<usize> = Vec::new();
    let mut i: usize = 0;
    while i < snaps.len()
        invariant
            i <= snaps@.len(),
            ord@.len() == i,
            forall|k: int| 0 <= k < ord@.len() ==> (#[trigger] ord@[k]) < i,
            forall|j: int| 0 <= j < i ==> #[trigger] listed(ord@, j),
            forall|a: int, b: int|
                0 <= a < b < ord@.len() ==> snap_before(snaps@, #[trigger] ord@[a] as int, #[trigger] ord@[b] as int),
        decreases snaps@.len() - i,
    {
        let key = snaps[i].0.raw();
        let mut p: usize = 0;
        while p < ord.len() && snaps[ord[p]].0.raw() <= key
            invariant
                p <= ord@.len(),
                i < snaps@.len(),
                key == snap_key(snaps@, i as int),
                forall|k: int| 0 <= k < ord@.len() ==> (#[trigger] ord@[k]) < i,
                forall|k: int| 0 <= k < p ==> snap_key(snaps@, #[trigger] ord@[k] as int) <= key,
                forall|a: int, b: int|
                    0 <= a < b < ord@.len() ==> snap_before(snaps@, #[trigger] ord@[a] as int, #[trigger] ord@[b] as int),
            decreases ord@.len() - p,
        {
            p = p + 1;
        }
        let ghost old_ord = ord@;
        proof {
            assert forall|k: int| p <= k < old_ord.len() implies snap_key(snaps@, #[trigger] old_ord[k] as int) > key by {
                if snap_key(snaps@, old_ord[k] as int) <= key {
                    assert(p < old_ord.len());
                    assert(snap_key(snaps@, old_ord[p as int] as int) > key);
                    if k > p {
                        assert(snap_before(snaps@, old_ord[p as int] as int, old_ord[k] as int));
                    }
                }
            }
        }
        ord.insert(p, i);
        proof {
            assert(ord@ == old_ord.insert(p as int, i));
            assert forall|j: int| 0 <= j < i + 1 implies #[trigger] listed(ord@, j) by {
                if j == i {
                    assert(ord@[p as int] == i);
                } else {
                    assert(listed(old_ord, j));
                    let k0 = choose|k: int| 0 <= k < old_ord.len() && #[trigger] old_ord[k] == j;
                    if k0 < p {
                        assert(ord@[k0] == j);
                    } else {
                        assert(ord@[k0 + 1] == j);
                    }
                }
            }
            assert forall|a: int, b: int| 0 <= a < b < ord@.len() implies snap_before(
                snaps@,
                #[trigger] ord@[a] as int,
                #[trigger] ord@[b] as int,
            ) by {
                if b < p {
                    assert(ord@[a] == old_ord[a] && ord@[b] == old_ord[b]);
                } else if b == p {
                    assert(ord@[a] == old_ord[a]);
                } else if a == p {
                    assert(ord@[b] == old_ord[b - 1]);
                } else if a < p {
                    assert(ord@[a] == old_ord[a] && ord@[b] == old_ord[b - 1]);
                } else {
                    assert(ord@[a] == old_ord[a - 1] && ord@[b] == old_ord[b - 1]);
                }
            }
        }
        i = i + 1;
    }
    ord
}

/// Order Place snaps for a catalog by Place identity and refuse the first,
/// in that order, whose canon digest is not `canon` or whose Place repeats
/// its predecessor's. On success, the snap positions in Place order.
pub fn order_place_snaps(canon: &crate::hash::Hash, snaps: &[(Sigil, crate::hash::Hash)]) -> (r: Result<
    Vec<usize>,
    CompileError,
>)
    ensures
        match r {
            Ok(ord) => is_place_order(snaps@, ord@) && snaps_fault(canon.0@, snaps@, ord@, ord@.len()) is None,
            Err(e) => e is Warp && exists|ord: Seq<usize>|
                is_place_order(snaps@, ord) && #[trigger] snaps_fault(canon.0@, snaps@, ord, ord.len()) == Some(
                    e->Warp_0@,
                ),
        },
{
    let ord = place_order(snaps);
    let mut k: usize = 0;
    while k < ord.len()
        invariant
            is_place_order(snaps@, ord@),
            k <= ord@.len(),
            snaps_fault(canon.0@, snaps@, ord@, k as nat) is None,
        decreases ord@.len() - k,
    {
        let i = ord[k];
        if !same_digest(&snaps[i].1, canon) {
            proof {
                lemma_snaps_fault_stops(canon.0@, snaps@, ord@, (k + 1) as nat, ord@.len());
            }
            return Err(CompileError::Warp(text("place canon hash mismatch")));
        }
        if k > 0 && snaps[ord[k - 1]].0.raw() == snaps[i].0.raw() {
            proof {
                lemma_snaps_fault_stops(canon.0@, snaps@, ord@, (k + 1) as nat, ord@.len());
            }
            return Err(CompileError::Warp(text("duplicate place")));
        }
        k = k + 1;
    }
    Ok(ord)
}

proof fn lemma_snaps_fault_stops(canon: Seq<u8>, snaps: Seq<(Sigil, crate::hash::Hash)>, ord: Seq<usize>, k: nat, m: nat)
    requires
        k <= m,
        snaps_fault(canon, snaps, ord, k) is Some,
    ensures
        snaps_fault(canon, snaps, ord, m) == snaps_fault(canon, snaps, ord, k),
    decreases m,
{
    if m > k {
        lemma_snaps_fault_stops(canon, snaps, ord, k, (m - 1) as nat);
    }
}

} // verus!

//! Production presentation contracts: quality tiers, bounded material
//! graphs, and casting/consent records.
use vstd::prelude::*;

use crate::failure::text;
use crate::hash::zero_bytes;
use crate::ir_error::IrError;
use crate::names::Name;

verus! {

/// Desktop quality ladder. Fallback is High, Medium, Low and is deterministic.
#[derive(Copy, Clone, PartialEq, Eq, Structural, PartialOrd, Ord, Hash, Debug)]
pub enum QualityTier {
    /// Unlit family, smallest residency.
    Low,
    /// Forward+ without SSGI; one cascade.
    Medium,
    /// 1080p High adventure: probes, SSGI, three cascades.
    High,
}

impl QualityTier {
    /// Packed discriminant (spec).
    pub open spec fn spec_u8(self) -> u8 {
        match self {
            QualityTier::Low => 0,
            QualityTier::Medium => 1,
            QualityTier::High => 2,
        }
    }

    /// Catalog name.
    pub fn as_str(self) -> (r: &'static str)
        ensures
            r@ == match self {
                QualityTier::Low => "low"@,
                QualityTier::Medium => "medium"@,
                QualityTier::High => "high"@,
            },
    {
        match self {
            QualityTier::Low => "low",
            QualityTier::Medium => "medium",
            QualityTier::High => "high",
        }
    }

    /// Packed discriminant.
    pub fn as_u8(self) -> (r: u8)
        ensures
            r == self.spec_u8(),
    {
        match self {
            QualityTier::Low => 0,
            QualityTier::Medium => 1,
            QualityTier::High => 2,
        }
    }

    /// Decode a packed tier.
    pub fn from_u8(v: u8) -> (r: Option<QualityTier>)
        ensures
            v <= 2 ==> (r matches Some(t) && t.spec_u8() == v),
            v > 2 ==> r is None,
    {
        match v {
            0 => Some(QualityTier::Low),
            1 => Some(QualityTier::Medium),
            2 => Some(QualityTier::High),
            _ => None,
        }
    }

    /// Next cheaper tier (spec).
    pub open spec fn spec_fallback(self) -> Option<QualityTier> {
        match self {
            QualityTier::High => Some(QualityTier::Medium),
            QualityTier::Medium => Some(QualityTier::Low),
            QualityTier::Low => None,
        }
    }

    /// Next cheaper tier, or `None` at Low.
    pub fn fallback(self) -> (r: Option<QualityTier>)
        ensures
            r == self.spec_fallback(),
    {
        match self {
            QualityTier::High => Some(QualityTier::Medium),
            QualityTier::Medium => Some(QualityTier::Low),
            QualityTier::Low => None,
        }
    }
}

/// Decoding a packed tier gives the tier back.
pub proof fn lemma_tier_round_trip(t: QualityTier)
    ensures
        t.spec_u8() <= 2,
        t.spec_fallback() matches Some(n) ==> n.spec_u8() + 1 == t.spec_u8(),
{
}

/// Pinned 1080p presentation caps for one quality tier.
#[derive(Copy, Clone, PartialEq, Eq, Structural, Hash, Debug)]
pub struct PresentProfile {
    /// Quality ladder step.
    pub tier: QualityTier,
    /// Present wall time, microseconds. High is 11_000.
    pub us_present: u32,
    /// Resident texture+geometry budget, mebibytes.
    pub vram_mb: u16,
    /// Cluster draw cap after drop-farthest.
    pub max_clusters: u16,
    /// GPU particle emitter cap.
    pub max_particles: u16,
    /// Ribbon strip cap.
    pub max_ribbons: u16,
    /// Skinned instance cap.
    pub max_skinned: u16,
}

/// The pinned profile table.
pub open spec fn spec_for_tier(tier: QualityTier) -> PresentProfile {
    match tier {
        QualityTier::High => PresentProfile {
            tier: QualityTier::High,
            us_present: 11_000,
            vram_mb: 1_536,
            max_clusters: 2_048,
            max_particles: 1_024,
            max_ribbons: 128,
            max_skinned: 256,
        },
        QualityTier::Medium => PresentProfile {
            tier: QualityTier::Medium,
            us_present: 11_000,
            vram_mb: 1_024,
            max_clusters: 1_024,
            max_particles: 512,
            max_ribbons: 64,
            max_skinned: 128,
        },
        QualityTier::Low => PresentProfile {
            tier: QualityTier::Low,
            us_present: 11_000,
            vram_mb: 512,
            max_clusters: 512,
            max_particles: 128,
            max_ribbons: 16,
            max_skinned: 64,
        },
    }
}

/// A presentation error with this field and reason.
pub open spec fn present_err(e: IrError, field: Seq<char>, reason: Seq<char>) -> bool {
    e matches IrError::InvalidPresent { field: f, reason: r } && f@ == field && r@ == reason
}

fn invalid(field: &str, reason: &str) -> (r: IrError)
    ensures
        present_err(r, field@, reason@),
{
    IrError::InvalidPresent { field: text(field), reason: text(reason) }
}

impl PresentProfile {
    /// 1080p High adventure. Tapestry stress must meet this.
    pub fn high() -> (r: PresentProfile)
        ensures
            r == spec_for_tier(QualityTier::High),
    {
        PresentProfile {
            tier: QualityTier::High,
            us_present: 11_000,
            vram_mb: 1_536,
            max_clusters: 2_048,
            max_particles: 1_024,
            max_ribbons: 128,
            max_skinned: 256,
        }
    }

    /// Medium fallback: no SSGI, one cascade, half particles.
    pub fn medium() -> (r: PresentProfile)
        ensures
            r == spec_for_tier(QualityTier::Medium),
    {
        PresentProfile {
            tier: QualityTier::Medium,
            us_present: 11_000,
            vram_mb: 1_024,
            max_clusters: 1_024,
            max_particles: 512,
            max_ribbons: 64,
            max_skinned: 128,
        }
    }

    /// Low fallback: unlit family.
    pub fn low() -> (r: PresentProfile)
        ensures
            r == spec_for_tier(QualityTier::Low),
    {
        PresentProfile {
            tier: QualityTier::Low,
            us_present: 11_000,
            vram_mb: 512,
            max_clusters: 512,
            max_particles: 128,
            max_ribbons: 16,
            max_skinned: 64,
        }
    }

    /// Profile for `tier`.
    pub fn for_tier(tier: QualityTier) -> (r: PresentProfile)
        ensures
            r == spec_for_tier(tier),
    {
        match tier {
            QualityTier::High => PresentProfile::high(),
            QualityTier::Medium => PresentProfile::medium(),
            QualityTier::Low => PresentProfile::low(),
        }
    }

    /// Fail closed on a zero time or memory budget, or on any field that
    /// differs from the pinned table for the tier.
    pub fn validate(&self) -> (r: Result<(), IrError>)
        ensures
            self.us_present == 0 ==> r is Err && present_err(r->Err_0, "us_present"@, "must be > 0"@),
            self.us_present != 0 && self.vram_mb == 0 ==> r is Err && present_err(
                r->Err_0,
                "vram_mb"@,
                "must be > 0"@,
            ),
            self.us_present != 0 && self.vram_mb != 0 && spec_for_tier(self.tier) != *self ==> r is Err
                && present_err(r->Err_0, "tier"@, "profile fields must match the pinned tier table"@),
            r is Ok <==> (self.us_present != 0 && self.vram_mb != 0 && spec_for_tier(self.tier)
                == *self),
    {
        if self.us_present == 0 {
            return Err(invalid("us_present", "must be > 0"));
        }
        if self.vram_mb == 0 {
            return Err(invalid("vram_mb", "must be > 0"));
        }
        if PresentProfile::for_tier(self.tier) != *self {
            return Err(invalid("tier", "profile fields must match the pinned tier table"));
        }
        Ok(())
    }
}

/// Every pinned profile validates.
pub proof fn lemma_pinned_profiles_valid(t: QualityTier)
    ensures
        spec_for_tier(t).us_present != 0,
        spec_for_tier(t).vram_mb != 0,
        spec_for_tier(spec_for_tier(t).tier) == spec_for_tier(t),
{
}

/// Closed material-graph node set. Cook compiles this; it is not a gameplay graph.
#[derive(Copy, Clone, PartialEq, Eq, Hash, Debug)]
pub enum MaterialNode {
    /// Constant RGB, milli-units (`0..=1000`).
    Constant {
        /// Milli-RGB.
        rgb_milli: [u16; 3],
    },
    /// Sample texture slot `0..=7`.
    Sample {
        /// Texture slot.
        slot: u8,
    },
    /// `nodes[a] * nodes[b]`.
    Mul {
        /// Left index.
        a: u8,
        /// Right index.
        b: u8,
    },
    /// Mix `a`/`b` by `t`.
    Lerp {
        /// From.
        a: u8,
        /// To.
        b: u8,
        /// Weight.
        t: u8,
    },
    /// Clamp `x` to milli-range.
    Clamp {
        /// Source index.
        x: u8,
        /// Inclusive lower milli.
        lo_milli: u16,
        /// Inclusive upper milli.
        hi_milli: u16,
    },
}

/// Bounded authored material. Compiles to a shader permutation bitset.
#[derive(Clone, PartialEq, Eq, Hash, Debug)]
pub struct MaterialGraph {
    /// Stable authoring id.
    pub id: Name,
    /// Nodes in evaluation order. Cap is [`MaterialGraph::MAX_NODES`].
    pub nodes: Vec<MaterialNode>,
    /// Albedo node index.
    pub albedo: u8,
    /// Metalness node index.
    pub metalness: u8,
    /// Roughness node index.
    pub roughness: u8,
    /// Optional emissive node.
    pub emissive: Option<u8>,
    /// Optional alpha node (masked pass).
    pub alpha: Option<u8>,
}

/// A node reference is out of range or points forward.
pub open spec fn bad_ref(idx: u8, n: int, at: int) -> bool {
    idx >= n || idx >= at
}

/// The first fault of node `i` (field, reason), if any.
pub open spec fn node_fault(node: MaterialNode, i: int, n: int) -> Option<(Seq<char>, Seq<char>)> {
    match node {
        MaterialNode::Constant { rgb_milli } => if rgb_milli[0] > 1000 || rgb_milli[1] > 1000
            || rgb_milli[2] > 1000 {
            Some(("constant"@, "rgb_milli > 1000"@))
        } else {
            None
        },
        MaterialNode::Sample { slot } => if slot >= 8 {
            Some(("sample"@, "slot >= 8"@))
        } else {
            None
        },
        MaterialNode::Mul { a, b } => if bad_ref(a, n, i) || bad_ref(b, n, i) {
            Some(("mul"@, "forward or oob node ref"@))
        } else {
            None
        },
        MaterialNode::Lerp { a, b, t } => if bad_ref(a, n, i) || bad_ref(b, n, i) || bad_ref(t, n, i) {
            Some(("lerp"@, "forward or oob node ref"@))
        } else {
            None
        },
        MaterialNode::Clamp { x, lo_milli, hi_milli } => if bad_ref(x, n, i) {
            Some(("clamp"@, "forward or oob node ref"@))
        } else if lo_milli > 1000 || hi_milli > 1000 || lo_milli > hi_milli {
            Some(("clamp"@, "milli range"@))
        } else {
            None
        },
    }
}

/// The first fault among the first `k` nodes.
pub open spec fn nodes_fault(nodes: Seq<MaterialNode>, n: int, k: nat) -> Option<(Seq<char>, Seq<char>)>
    decreases k,
{
    if k == 0 {
        None
    } else {
        match nodes_fault(nodes, n, (k - 1) as nat) {
            Some(f) => Some(f),
            None => node_fault(nodes[k - 1], k - 1, n),
        }
    }
}

/// The first output index out of range.
pub open spec fn outputs_fault(g: MaterialGraph, n: int) -> Option<(Seq<char>, Seq<char>)> {
    if g.albedo >= n {
        Some(("albedo"@, "output index oob"@))
    } else if g.metalness >= n {
        Some(("metalness"@, "output index oob"@))
    } else if g.roughness >= n {
        Some(("roughness"@, "output index oob"@))
    } else if g.emissive matches Some(e) && e >= n {
        Some(("emissive"@, "output index oob"@))
    } else if g.alpha matches Some(a) && a >= n {
        Some(("alpha"@, "output index oob"@))
    } else {
        None
    }
}

/// The first structural fault of a graph after its id: empty, over the cap,
/// a bad node in order, then an output out of range.
pub open spec fn graph_fault(g: MaterialGraph) -> Option<(Seq<char>, Seq<char>)> {
    let n = g.nodes@.len() as int;
    if n == 0 {
        Some(("nodes"@, "empty graph"@))
    } else if n > 16 {
        Some(("nodes"@, "exceeds MAX_NODES"@))
    } else {
        match nodes_fault(g.nodes@, n, n as nat) {
            Some(f) => Some(f),
            None => outputs_fault(g, n),
        }
    }
}

fn check_ref(field: &str, idx: u8, n: u8, at: usize) -> (r: Result<(), IrError>)
    ensures
        bad_ref(idx, n as int, at as int) ==> r is Err && present_err(
            r->Err_0,
            field@,
            "forward or oob node ref"@,
        ),
        !bad_ref(idx, n as int, at as int) ==> r is Ok,
{
    if idx >= n || idx as usize >= at {
        return Err(invalid(field, "forward or oob node ref"));
    }
    Ok(())
}

fn check_out(field: &str, idx: u8, n: u8) -> (r: Result<(), IrError>)
    ensures
        idx >= n ==> r is Err && present_err(r->Err_0, field@, "output index oob"@),
        idx < n ==> r is Ok,
{
    if idx >= n {
        return Err(invalid(field, "output index oob"));
    }
    Ok(())
}

fn check_node(node: MaterialNode, i: usize, n: u8) -> (r: Result<(), IrError>)
    ensures
        match node_fault(node, i as int, n as int) {
            None => r is Ok,
            Some(f) => r is Err && present_err(r->Err_0, f.0, f.1),
        },
{
    match node {
        MaterialNode::Constant { rgb_milli } => {
            if rgb_milli[0] > 1000 || rgb_milli[1] > 1000 || rgb_milli[2] > 1000 {
                return Err(invalid("constant", "rgb_milli > 1000"));
            }
        },
        MaterialNode::Sample { slot } => {
            if slot >= MaterialGraph::MAX_SLOTS {
                return Err(invalid("sample", "slot >= 8"));
            }
        },
        MaterialNode::Mul { a, b } => {
            check_ref("mul", a, n, i)?;
            check_ref("mul", b, n, i)?;
        },
        MaterialNode::Lerp { a, b, t } => {
            check_ref("lerp", a, n, i)?;
            check_ref("lerp", b, n, i)?;
            check_ref("lerp", t, n, i)?;
        },
        MaterialNode::Clamp { x, lo_milli, hi_milli } => {
            check_ref("clamp", x, n, i)?;
            if lo_milli > 1_000 || hi_milli > 1_000 || lo_milli > hi_milli {
                return Err(invalid("clamp", "milli range"));
            }
        },
    }
    Ok(())
}

impl MaterialGraph {
    /// Hard node cap. Over-cap fails closed.
    pub const MAX_NODES: usize = 16;

    /// Texture slots `0..=7`.
    pub const MAX_SLOTS: u8 = 8;

    /// Organic constant albedo, mid metal/rough.
    pub fn organic() -> (r: MaterialGraph)
        ensures
            r.id@ == "organic"@,
            r.nodes@ == seq![
                MaterialNode::Constant { rgb_milli: [620, 480, 310] },
                MaterialNode::Constant { rgb_milli: [50, 50, 50] },
                MaterialNode::Constant { rgb_milli: [700, 700, 700] },
            ],
            r.albedo == 0,
            r.metalness == 1,
            r.roughness == 2,
            r.emissive is None,
            r.alpha is None,
    {
        let nodes = vec![
            MaterialNode::Constant { rgb_milli: [620, 480, 310] },
            MaterialNode::Constant { rgb_milli: [50, 50, 50] },
            MaterialNode::Constant { rgb_milli: [700, 700, 700] },
        ];
        MaterialGraph {
            id: Name::of("organic"),
            nodes,
            albedo: 0,
            metalness: 1,
            roughness: 2,
            emissive: None,
            alpha: None,
        }
    }

    /// Fail closed on an empty id, an empty or over-cap graph, a bad constant
    /// or slot, a forward or out-of-range node reference, or an output index
    /// out of range; the first fault is reported.
    pub fn validate(&self) -> (r: Result<(), IrError>)
        ensures
            self.id@.len() == 0 ==> r == Err::<(), IrError>(IrError::EmptyName),
            self.id@.len() > 0 ==> match graph_fault(*self) {
                None => r is Ok,
                Some(f) => r is Err && present_err(r->Err_0, f.0, f.1),
            },
    {
        self.id.check()?;
        if self.nodes.len() == 0 {
            return Err(invalid("nodes", "empty graph"));
        }
        if self.nodes.len() > MaterialGraph::MAX_NODES {
            return Err(invalid("nodes", "exceeds MAX_NODES"));
        }
        let n = self.nodes.len() as u8;
        let mut i: usize = 0;
        while i < self.nodes.len()
            invariant
                0 <= i <= self.nodes@.len(),
                1 <= self.nodes@.len() <= 16,
                n == self.nodes@.len(),
                self.id@.len() > 0,
                nodes_fault(self.nodes@, n as int, i as nat) is None,
            decreases self.nodes@.len() - i,
        {
            let r = check_node(self.nodes[i], i, n);
            if r.is_err() {
                proof {
                    lemma_nodes_fault_stops(self.nodes@, n as int, (i + 1) as nat, self.nodes@.len());
                }
                return r;
            }
            i = i + 1;
        }
        check_out("albedo", self.albedo, n)?;
        check_out("metalness", self.metalness, n)?;
        check_out("roughness", self.roughness, n)?;
        if let Some(e) = self.emissive {
            check_out("emissive", e, n)?;
        }
        if let Some(a) = self.alpha {
            check_out("alpha", a, n)?;
        }
        Ok(())
    }
}

/// The first fault stays the first fault.
proof fn lemma_nodes_fault_stops(nodes: Seq<MaterialNode>, n: int, k: nat, m: nat)
    requires
        k <= m,
        nodes_fault(nodes, n, k) is Some,
    ensures
        nodes_fault(nodes, n, m) == nodes_fault(nodes, n, k),
    decreases m,
{
    if m > k {
        lemma_nodes_fault_stops(nodes, n, k, (m - 1) as nat);
    }
}

/// Performer/casting record required before generated or recorded VO/face ships.
#[derive(Clone, PartialEq, Eq, Hash, Debug)]
pub struct CastingConsent {
    /// Performer or session identity.
    pub performer: Name,
    /// Role or line group.
    pub role: Name,
    /// Consent document hash. Zero is refused.
    pub consent: crate::hash::Hash,
    /// Union/territory tag (`sag-aftra-us`, `non-union-dev`).
    pub union_territory: Name,
    /// Whether reuse beyond this title is granted.
    pub reuse: bool,
    /// Named audio/legal approver.
    pub approved_by: Name,
}

impl CastingConsent {
    /// First-title fixture: named human approval, non-zero consent.
    pub fn first_title() -> (r: CastingConsent)
        ensures
            r.performer@ == "fixture-performer"@,
            r.role@ == "hero"@,
            r.consent.0@ == Seq::new(32, |i: int| 0x11u8),
            r.union_territory@ == "non-union-dev"@,
            !r.reuse,
            r.approved_by@ == "audio-lead"@,
    {
        let r = CastingConsent {
            performer: Name::of("fixture-performer"),
            role: Name::of("hero"),
            consent: crate::hash::Hash::from_bytes([0x11u8; 32]),
            union_territory: Name::of("non-union-dev"),
            reuse: false,
            approved_by: Name::of("audio-lead"),
        };
        assert(r.consent.0@ =~= Seq::new(32, |i: int| 0x11u8));
        r
    }

    /// Refuse an empty performer, role, territory or approver (in that
    /// order), then a zero consent hash.
    pub fn validate(&self) -> (r: Result<(), IrError>)
        ensures
            (self.performer@.len() == 0 || self.role@.len() == 0 || self.union_territory@.len() == 0
                || self.approved_by@.len() == 0) ==> r == Err::<(), IrError>(IrError::EmptyName),
            (self.performer@.len() > 0 && self.role@.len() > 0 && self.union_territory@.len() > 0
                && self.approved_by@.len() > 0) ==> if self.consent.0@ == zero_bytes() {
                r is Err && present_err(r->Err_0, "consent"@, "zero hash"@)
            } else {
                r is Ok
            },
    {
        self.performer.check()?;
        self.role.check()?;
        self.union_territory.check()?;
        self.approved_by.check()?;
        if self.consent.is_zero() {
            return Err(invalid("consent", "zero hash"));
        }
        Ok(())
    }
}

} // verus!

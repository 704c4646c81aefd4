//! Shared authoring diagnostic envelope: stable codes, failure classes,
//! minimal witnesses, legal repair shapes, the closed code catalog, and the
//! labelling of untrusted text as data.
use vstd::prelude::*;

use crate::anchor::{zero16, AnchorId};
use crate::names::Name;
use crate::units::Tick;
use crate::failure::{chars_of, string_of};

verus! {

/// Stable code cited by the schema catalog and the fault corpus.
#[derive(Clone, PartialEq, Eq, Ord, PartialOrd, Hash, Debug)]
pub struct DiagnosticCode(pub String);

impl DiagnosticCode {
    /// Contradiction / unsatisfiable law fragment.
    pub const CONTRADICTION: &'static str = "KAI-DIAG-CONTRADICTION";
    /// Rite CFG: missing target, unreachable, cycle, fall-off.
    pub const CFG_TARGET: &'static str = "KAI-DIAG-CFG-TARGET";
    /// Pred or rite step cap.
    pub const CAP: &'static str = "KAI-DIAG-CAP";
    /// Non-player construction of agency, or duplicate claims.
    pub const AGENCY: &'static str = "KAI-DIAG-AGENCY";
    /// License / CAS / provenance graph.
    pub const PROVENANCE: &'static str = "KAI-DIAG-PROVENANCE";
    /// Ship package allowlist or warp container.
    pub const PACKAGE: &'static str = "KAI-DIAG-PACKAGE";
    /// Journey cannot reach its assertion.
    pub const JOURNEY: &'static str = "KAI-DIAG-JOURNEY";
    /// Budget miss with dominant blame.
    pub const BUDGET: &'static str = "KAI-DIAG-BUDGET";
    /// Content-hash drift under a locked environment.
    pub const HASH_DRIFT: &'static str = "KAI-DIAG-HASH-DRIFT";
}

/// Failure class. The fault corpus requires these names.
#[derive(Copy, Clone, PartialEq, Eq, Structural, Ord, PartialOrd, Hash, Debug)]
pub enum FailureClass {
    /// Unsatisfiable or pairwise-contradictory laws.
    Contradiction,
    /// Rite control-flow.
    Cfg,
    /// Frozen pred/rite/header cap.
    Cap,
    /// Player-only agency.
    Agency,
    /// Provenance / license / CAS.
    Provenance,
    /// Ship package / warp.
    Package,
    /// Playable journey.
    Journey,
    /// Sim/frame/memory budget.
    Budget,
    /// Hash / lock drift.
    Reproducibility,
    /// Schema, parse, or module structure.
    Schema,
}

impl FailureClass {
    /// Catalog / fault-corpus snake_case name.
    pub fn as_str(self) -> (r: &'static str)
        ensures
            r@ == match self {
                FailureClass::Contradiction => "contradiction"@,
                FailureClass::Cfg => "cfg"@,
                FailureClass::Cap => "cap"@,
                FailureClass::Agency => "agency"@,
                FailureClass::Provenance => "provenance"@,
                FailureClass::Package => "package"@,
                FailureClass::Journey => "journey"@,
                FailureClass::Budget => "budget"@,
                FailureClass::Reproducibility => "reproducibility"@,
                FailureClass::Schema => "schema"@,
            },
    {
        match self {
            FailureClass::Contradiction => "contradiction",
            FailureClass::Cfg => "cfg",
            FailureClass::Cap => "cap",
            FailureClass::Agency => "agency",
            FailureClass::Provenance => "provenance",
            FailureClass::Package => "package",
            FailureClass::Journey => "journey",
            FailureClass::Budget => "budget",
            FailureClass::Reproducibility => "reproducibility",
            FailureClass::Schema => "schema",
        }
    }
}

/// How loudly the failure is reported.
#[derive(Copy, Clone, PartialEq, Eq, Structural, Hash, Debug)]
pub enum Severity {
    /// Failure that stops the pipeline. Default for every seeded class.
    Error,
    /// Non-blocking.
    Warning,
    /// Advisory critic finding. Never blocks a merge.
    Advice,
}

/// Minimal witness. No secrets, no untrusted asset dumps.
#[derive(Clone, PartialEq, Eq, Debug)]
pub enum Counterexample {
    /// Law authoring ids whose `must` is unsatisfiable together, sorted.
    Contradiction {
        /// Law authoring ids, sorted.
        laws: Vec<String>,
    },
    /// Last reachable pc and the missing / blocked pc.
    Cfg {
        /// Last pc the CFG walker could stand on.
        last_reachable_pc: u16,
        /// Missing jump target or unreachable node.
        blocked_pc: u16,
    },
    /// Used versus frozen limit.
    Cap {
        /// Counted ops or steps.
        used: u32,
        /// Cap that rejected the input.
        limit: u32,
    },
    /// Who tried to claim a player-only channel.
    Agency {
        /// Attempted channel or `"any"`.
        channel: String,
        /// `player`, `mind`, `infer`, or `tool`.
        source: String,
    },
    /// License span and dependent CAS ids.
    Provenance {
        /// Escaped span description.
        span: String,
        /// Dependent blob or node ids, escaped.
        dependents: Vec<String>,
    },
    /// Package path and why it is forbidden.
    Package {
        /// Escaped path.
        path: String,
        /// Short reason.
        reason: String,
    },
    /// Last reachable semantic state and the affordance that blocked progress.
    Journey {
        /// Escaped last state.
        last_state: String,
        /// Blocked affordance id.
        blocked_affordance: String,
    },
    /// Dominant loci and the miss versus cap.
    Budget {
        /// Dominant locus / pattern names, most expensive first.
        dominant: Vec<String>,
        /// Observed cost.
        used: u32,
        /// Cap.
        cap: u32,
        /// Estimated savings if the dominant item is reduced.
        estimated_savings: u32,
    },
}

/// One legal authoring operation a repair loop may attempt.
#[derive(Clone, PartialEq, Eq, Debug)]
pub struct RepairShape {
    /// Catalog operation id (`author.remove@1`).
    pub op: String,
    /// Human/agent note.
    pub note: String,
}

/// Static relative cost of applying the suggested repair.
#[derive(Clone, PartialEq, Eq, Debug)]
pub struct EstimatedCost {
    /// Catalog `cost_units`.
    pub units: u16,
    /// Stage that produced the diagnostic (`validate`, `cook`, `package`, `prove`).
    pub stage: String,
}

/// Common diagnostic envelope. The native error text is its message, so
/// human rendering stays a single short line.
#[derive(Clone, PartialEq, Eq, Debug)]
pub struct Diagnostic {
    /// Stable code.
    pub code: DiagnosticCode,
    /// Fault class.
    pub class: FailureClass,
    /// Error / warning / advice.
    pub severity: Severity,
    /// Concise human line.
    pub message: String,
    /// Primary semantic anchor. All zero only when no object exists.
    pub primary: AnchorId,
    /// Additional blamed objects.
    pub related: Vec<AnchorId>,
    /// Minimal counterexample.
    pub witness: Option<Counterexample>,
    /// Legal operations a bounded repair loop may apply.
    pub legal_repairs: Vec<RepairShape>,
    /// Optional repair cost.
    pub cost: Option<EstimatedCost>,
}

/// Named capture taken from a world snapshot during a journey.
#[derive(Clone, PartialEq, Eq, Debug)]
pub struct CaptureMark {
    /// Capture point name.
    pub name: Name,
    /// Tick the snapshot was published.
    pub tick: Tick,
    /// Canon hash of the snapshot.
    pub canon_hash: crate::hash::Hash,
    /// Trace prefix of the snapshot.
    pub prefix: crate::hash::Hash,
}

/// The diagnostic names a real semantic identity.
pub open spec fn anchored(d: Diagnostic) -> bool {
    d.primary.0@ != zero16()
}

/// How many of the diagnostics are anchored.
pub open spec fn anchored_count(s: Seq<Diagnostic>) -> nat
    decreases s.len(),
{
    if s.len() == 0 {
        0
    } else {
        anchored_count(s.drop_last()) + if anchored(s.last()) {
            1nat
        } else {
            0nat
        }
    }
}

impl DiagnosticCode {
    /// Code from its text.
    pub(crate) fn new(code: &str) -> (r: DiagnosticCode)
        ensures
            r.0@ == code@,
    {
        DiagnosticCode(crate::failure::text(code))
    }
}

impl Diagnostic {
    /// Display text: the message line.
    pub fn to_text(&self) -> (r: String)
        ensures
            r@ == self.message@,
    {
        crate::failure::text(self.message.as_str())
    }

    /// `true` when the primary anchor is a real semantic identity.
    pub fn points_to_anchor(&self) -> (r: bool)
        ensures
            r == anchored(*self),
    {
        !self.primary.is_zero()
    }

    /// How many diagnostics point at an anchor, out of how many.
    pub fn anchor_ratio(diags: &[Diagnostic]) -> (r: (usize, usize))
        ensures
            r.0 == anchored_count(diags@),
            r.1 == diags@.len(),
    {
        let mut hit: usize = 0;
        let mut i: usize = 0;
        while i < diags.len()
            invariant
                0 <= i <= diags@.len(),
                hit == anchored_count(diags@.take(i as int)),
                hit <= i,
            decreases diags@.len() - i,
        {
            assert(diags@.take(i + 1).drop_last() =~= diags@.take(i as int));
            if diags[i].points_to_anchor() {
                hit = hit + 1;
            }
            i = i + 1;
        }
        assert(diags@.take(diags@.len() as int) =~= diags@);
        (hit, diags.len())
    }
}

/// Catalog row of the closed diagnostic surface.
#[derive(Clone, PartialEq, Eq, Debug)]
pub struct DiagnosticCatalogEntry {
    /// Stable code.
    pub code: &'static str,
    /// Producing crate.
    pub source: &'static str,
    /// Fault class.
    pub class: FailureClass,
    /// Whether identical input may later succeed.
    pub retryable: bool,
    /// Legal repair notes.
    pub legal_repairs: Vec<&'static str>,
}

/// The class of a detail code: named exceptions, else schema.
pub open spec fn spec_class_for(code: Seq<char>) -> FailureClass {
    if code == "IR.DuplicateChannel"@ {
        FailureClass::Agency
    } else if code == "IR.HashDrift"@ || code == "COMPILE.LockMismatch"@ || code == "COMPILE.Flatten"@ {
        FailureClass::Reproducibility
    } else if code == "IR.InvalidRiteCap"@ || code == "IR.MindProgramCap"@ || code
        == "CANON.PredTooLarge"@ || code == "CANON.TableFull"@ || code == "COMPILE.Header"@ {
        FailureClass::Cap
    } else if code == "CANON.MixedLabeling"@ || code == "CANON.DuplicatePc"@ || code
        == "CANON.MissingEntry"@ || code == "CANON.MissingTarget"@ || code == "CANON.Unreachable"@
        || code == "CANON.FallOff"@ || code == "CANON.Cycle"@ {
        FailureClass::Cfg
    } else if code == "CANON.Contradiction"@ || code == "CANON.LockableNeedsKeyOrRite"@ {
        FailureClass::Contradiction
    } else if code == "PATTERN.Budget"@ {
        FailureClass::Budget
    } else if code == "EVAL.Stale"@ || code == "DIALOGUE.Stale"@ {
        FailureClass::Reproducibility
    } else if code == "EVAL.Select"@ || code == "EVAL.Replay"@ || code == "DIALOGUE.Replay"@ {
        FailureClass::Journey
    } else if code == "EVAL.Projection"@ || code == "EVAL.Agency"@ {
        FailureClass::Agency
    } else if code == "DIALOGUE.Continuity"@ || code == "DIALOGUE.Quest"@ {
        FailureClass::Contradiction
    } else if code == "DIALOGUE.Release"@ {
        FailureClass::Provenance
    } else if code == "COMPILE.Warp"@ || code == "COMPILE.PackageAllowlist"@ || code
        == "COMPILE.MissingLockFile"@ {
        FailureClass::Package
    } else {
        FailureClass::Schema
    }
}

/// Two string slices hold the same characters.
pub(crate) fn str_eq(a: &str, b: &str) -> (r: bool)
    ensures
        r == (a@ == b@),
{
    let x = chars_of(a);
    let y = chars_of(b);
    if x.len() != y.len() {
        return false;
    }
    let mut i: usize = 0;
    while i < x.len()
        invariant
            x@ == a@,
            y@ == b@,
            x@.len() == y@.len(),
            0 <= i <= x@.len(),
            forall|k: int| 0 <= k < i ==> x@[k] == y@[k],
        decreases x@.len() - i,
    {
        if x[i] != y[i] {
            return false;
        }
        i = i + 1;
    }
    assert(x@ =~= y@);
    true
}

/// The class of a detail code.
pub fn class_for_detail(code: &str) -> (r: FailureClass)
    ensures
        r == spec_class_for(code@),
{
    if str_eq(code, "IR.DuplicateChannel") {
        FailureClass::Agency
    } else if str_eq(code, "IR.HashDrift") || str_eq(code, "COMPILE.LockMismatch") || str_eq(
        code,
        "COMPILE.Flatten",
    ) {
        FailureClass::Reproducibility
    } else if str_eq(code, "IR.InvalidRiteCap") || str_eq(code, "IR.MindProgramCap") || str_eq(
        code,
        "CANON.PredTooLarge",
    ) || str_eq(code, "CANON.TableFull") || str_eq(code, "COMPILE.Header") {
        FailureClass::Cap
    } else if str_eq(code, "CANON.MixedLabeling") || str_eq(code, "CANON.DuplicatePc") || str_eq(
        code,
        "CANON.MissingEntry",
    ) || str_eq(code, "CANON.MissingTarget") || str_eq(code, "CANON.Unreachable") || str_eq(
        code,
        "CANON.FallOff",
    ) || str_eq(code, "CANON.Cycle") {
        FailureClass::Cfg
    } else if str_eq(code, "CANON.Contradiction") || str_eq(code, "CANON.LockableNeedsKeyOrRite") {
        FailureClass::Contradiction
    } else if str_eq(code, "PATTERN.Budget") {
        FailureClass::Budget
    } else if str_eq(code, "EVAL.Stale") || str_eq(code, "DIALOGUE.Stale") {
        FailureClass::Reproducibility
    } else if str_eq(code, "EVAL.Select") || str_eq(code, "EVAL.Replay") || str_eq(
        code,
        "DIALOGUE.Replay",
    ) {
        FailureClass::Journey
    } else if str_eq(code, "EVAL.Projection") || str_eq(code, "EVAL.Agency") {
        FailureClass::Agency
    } else if str_eq(code, "DIALOGUE.Continuity") || str_eq(code, "DIALOGUE.Quest") {
        FailureClass::Contradiction
    } else if str_eq(code, "DIALOGUE.Release") {
        FailureClass::Provenance
    } else if str_eq(code, "COMPILE.Warp") || str_eq(code, "COMPILE.PackageAllowlist") || str_eq(
        code,
        "COMPILE.MissingLockFile",
    ) {
        FailureClass::Package
    } else {
        FailureClass::Schema
    }
}

/// A catalog row with no repair notes that is never retryable: the class is
/// the fixed one when given, else the code's own class.
pub open spec fn plain_row(e: DiagnosticCatalogEntry, code: Seq<char>, source: Seq<char>, fixed: Option<FailureClass>) -> bool {
    &&& e.code@ == code
    &&& e.source@ == source
    &&& e.class == match fixed {
        Some(c) => c,
        None => spec_class_for(code),
    }
    &&& !e.retryable
    &&& e.legal_repairs@.len() == 0
}

/// Append one plain row per code.
fn push_group(out: &mut Vec<DiagnosticCatalogEntry>, codes: &Vec<&'static str>, source: &'static str, fixed: Option<FailureClass>)
    ensures
        final(out)@.len() == old(out)@.len() + codes@.len(),
        forall|i: int| 0 <= i < old(out)@.len() ==> #[trigger] final(out)@[i] == old(out)@[i],
        forall|i: int|
            0 <= i < codes@.len() ==> plain_row(#[trigger] final(out)@[old(out)@.len() + i], codes@[i]@, source@, fixed),
{
    let ghost start = out@;
    let mut i: usize = 0;
    while i < codes.len()
        invariant
            0 <= i <= codes@.len(),
            out@.len() == start.len() + i,
            forall|k: int| 0 <= k < start.len() ==> #[trigger] out@[k] == start[k],
            forall|k: int| 0 <= k < i ==> plain_row(#[trigger] out@[start.len() + k], codes@[k]@, source@, fixed),
        decreases codes@.len() - i,
    {
        let code = codes[i];
        let class = match fixed {
            Some(c) => c,
            None => class_for_detail(code),
        };
        out.push(DiagnosticCatalogEntry { code, source, class, retryable: false, legal_repairs: Vec::new() });
        i = i + 1;
    }
}

fn seeded(code: &'static str, source: &'static str, class: FailureClass, repair: &'static str) -> (r: DiagnosticCatalogEntry)
    ensures
        r.code == code,
        r.source == source,
        r.class == class,
        !r.retryable,
        r.legal_repairs@ == seq![repair],
{
    let mut legal_repairs: Vec<&'static str> = Vec::new();
    legal_repairs.push(repair);
    DiagnosticCatalogEntry { code, source, class, retryable: false, legal_repairs }
}

/// Producing crates of the seeded corpus codes, in catalog order.
pub open spec fn seeded_sources() -> Seq<Seq<char>> {
    seq![
        "klotho-canon"@,
        "klotho-canon"@,
        "klotho-compile"@,
        "klotho-ir"@,
        "klotho-prove"@,
        "klotho-compile"@,
        "klotho-debug"@,
        "klotho-debug"@,
        "klotho-ir"@,
    ]
}

/// The one legal repair of each seeded corpus code, in catalog order.
pub open spec fn seeded_repairs() -> Seq<Seq<char>> {
    seq![
        "remove one scoped fact"@,
        "retarget within the owned Rite"@,
        "reduce or split authored flow without changing OutcomeId"@,
        "use public test-input adapter"@,
        "bind approved license evidence or remove blob"@,
        "remove authoring artifact from package graph"@,
        "repair owned semantic operation from minimized witness"@,
        "reduce scoped cost without weakening budget"@,
        "reject candidate and isolate nondeterministic input"@,
    ]
}

/// The nine seeded corpus codes, in catalog order.
pub open spec fn seeded_codes() -> Seq<Seq<char>> {
    seq![
        "KAI-DIAG-CONTRADICTION"@,
        "KAI-DIAG-CFG-TARGET"@,
        "KAI-DIAG-CAP"@,
        "KAI-DIAG-AGENCY"@,
        "KAI-DIAG-PROVENANCE"@,
        "KAI-DIAG-PACKAGE"@,
        "KAI-DIAG-JOURNEY"@,
        "KAI-DIAG-BUDGET"@,
        "KAI-DIAG-HASH-DRIFT"@,
    ]
}

/// Detail codes of the ir source, in catalog order.
pub open spec fn ir_codes() -> Seq<Seq<char>> {
    seq![
        "IR.Parse"@,
        "IR.Ser"@,
        "IR.EmptyName"@,
        "IR.NestedQuantifier"@,
        "IR.InvalidRiteCap"@,
        "IR.InvalidPhase"@,
        "IR.DuplicateChannel"@,
        "IR.InvalidModuleVersion"@,
        "IR.ImportCycle"@,
        "IR.HashDrift"@,
        "IR.DuplicateModule"@,
        "IR.MissingModule"@,
        "IR.TombstoneReuse"@,
        "IR.AliasCollision"@,
        "IR.UnboundParameter"@,
        "IR.DuplicateAnchor"@,
        "IR.MissingAnchor"@,
        "IR.DuplicateObjectName"@,
        "IR.ExportUnknown"@,
        "IR.ParameterTypeMismatch"@,
        "IR.UnexpandedPattern"@,
        "IR.InvalidFeel"@,
        "IR.InvalidA11y"@,
        "IR.MindProgramCap"@,
        "IR.InvalidMindProgram"@,
        "IR.UnsafeFarFact"@,
    ]
}

/// Detail codes of the canon source, in catalog order.
pub open spec fn canon_codes() -> Seq<Seq<char>> {
    seq![
        "CANON.MixedLabeling"@,
        "CANON.DuplicatePc"@,
        "CANON.MissingEntry"@,
        "CANON.MissingTarget"@,
        "CANON.Unreachable"@,
        "CANON.FallOff"@,
        "CANON.Cycle"@,
        "CANON.UnboundName"@,
        "CANON.InvalidDoc"@,
        "CANON.DuplicateId"@,
        "CANON.UnknownRetract"@,
        "CANON.PredTooLarge"@,
        "CANON.TableFull"@,
        "CANON.Contradiction"@,
        "CANON.LockableNeedsKeyOrRite"@,
    ]
}

/// Detail codes of the prove source, in catalog order.
pub open spec fn prove_codes() -> Seq<Seq<char>> {
    seq![
        "PROVE.UnknownLicense"@,
        "PROVE.InvalidLicense"@,
        "PROVE.MissingParent"@,
        "PROVE.MissingBlob"@,
        "PROVE.BlobTooLarge"@,
        "PROVE.CasFull"@,
    ]
}

/// Detail codes of the compile source, in catalog order.
pub open spec fn compile_codes() -> Seq<Seq<char>> {
    seq![
        "COMPILE.MissingTag"@,
        "COMPILE.LockMismatch"@,
        "COMPILE.MissingLockFile"@,
        "COMPILE.Catalog"@,
        "COMPILE.Header"@,
        "COMPILE.QuantizeOverflow"@,
        "COMPILE.Io"@,
        "COMPILE.Warp"@,
        "COMPILE.Gltf"@,
        "COMPILE.EpochOverflow"@,
        "COMPILE.Flatten"@,
        "COMPILE.PackageAllowlist"@,
    ]
}

/// Detail codes of the pattern source, in catalog order.
pub open spec fn pattern_codes() -> Seq<Seq<char>> {
    seq![
        "PATTERN.Unknown"@,
        "PATTERN.Version"@,
        "PATTERN.Arg"@,
        "PATTERN.Capability"@,
        "PATTERN.Conflict"@,
        "PATTERN.Budget"@,
    ]
}

/// Detail codes of the eval source, in catalog order.
pub open spec fn eval_codes() -> Seq<Seq<char>> {
    seq![
        "EVAL.Stale"@,
        "EVAL.Select"@,
        "EVAL.Projection"@,
        "EVAL.Agency"@,
        "EVAL.Replay"@,
    ]
}

/// Detail codes of the dialogue source, in catalog order.
pub open spec fn dialogue_codes() -> Seq<Seq<char>> {
    seq![
        "DIALOGUE.Name"@,
        "DIALOGUE.Continuity"@,
        "DIALOGUE.Quest"@,
        "DIALOGUE.Line"@,
        "DIALOGUE.Loc"@,
        "DIALOGUE.Release"@,
        "DIALOGUE.Stale"@,
        "DIALOGUE.Replay"@,
    ]
}

/// Closed diagnostic surface: the nine seeded corpus codes with their
/// classes and repair notes, then every detail code of the ir, canon,
/// prove, compile, pattern, eval and dialogue sources, then the debug
/// budget code.
pub fn diagnostic_catalog() -> (r: Vec<DiagnosticCatalogEntry>)
    ensures
        r@.len() == 9 + 26 + 15 + 6 + 12 + 6 + 5 + 8 + 1,
        forall|i: int| 0 <= i < 9 ==> (#[trigger] r@[i]).code@ == seeded_codes()[i] && !r@[i].retryable
            && r@[i].legal_repairs@.len() == 1 && r@[i].source@ == seeded_sources()[i]
            && r@[i].legal_repairs@[0]@ == seeded_repairs()[i],
        r@[0].class == FailureClass::Contradiction,
        r@[1].class == FailureClass::Cfg,
        r@[2].class == FailureClass::Cap,
        r@[3].class == FailureClass::Agency,
        r@[4].class == FailureClass::Provenance,
        r@[5].class == FailureClass::Package,
        r@[6].class == FailureClass::Journey,
        r@[7].class == FailureClass::Budget,
        r@[8].class == FailureClass::Reproducibility,
        forall|i: int| 9 <= i < 35 ==> plain_row(#[trigger] r@[i], ir_codes()[i - 9], "klotho-ir"@, None),
        forall|i: int| 35 <= i < 50 ==> plain_row(#[trigger] r@[i], canon_codes()[i - 35], "klotho-canon"@, None),
        forall|i: int| 50 <= i < 56 ==> plain_row(#[trigger] r@[i], prove_codes()[i - 50], "klotho-prove"@, Some(FailureClass::Provenance)),
        forall|i: int| 56 <= i < 68 ==> plain_row(#[trigger] r@[i], compile_codes()[i - 56], "klotho-compile"@, None),
        forall|i: int| 68 <= i < 74 ==> plain_row(#[trigger] r@[i], pattern_codes()[i - 68], "klotho-pattern"@, None),
        forall|i: int| 74 <= i < 79 ==> plain_row(#[trigger] r@[i], eval_codes()[i - 74], "klotho-eval"@, None),
        forall|i: int| 79 <= i < 87 ==> plain_row(#[trigger] r@[i], dialogue_codes()[i - 79], "klotho-dialogue"@, None),
        r@[87].code@ == "DEBUG.Budget"@,
        r@[87].source@ == "klotho-debug"@,
        r@[87].class == FailureClass::Budget,
        r@[87].retryable,
        r@[87].legal_repairs@.len() == 0,
{
    let mut out: Vec<DiagnosticCatalogEntry> = Vec::new();
    out.push(seeded(DiagnosticCode::CONTRADICTION, "klotho-canon", FailureClass::Contradiction, "remove one scoped fact"));
    out.push(seeded(DiagnosticCode::CFG_TARGET, "klotho-canon", FailureClass::Cfg, "retarget within the owned Rite"));
    out.push(seeded(DiagnosticCode::CAP, "klotho-compile", FailureClass::Cap, "reduce or split authored flow without changing OutcomeId"));
    out.push(seeded(DiagnosticCode::AGENCY, "klotho-ir", FailureClass::Agency, "use public test-input adapter"));
    out.push(seeded(DiagnosticCode::PROVENANCE, "klotho-prove", FailureClass::Provenance, "bind approved license evidence or remove blob"));
    out.push(seeded(DiagnosticCode::PACKAGE, "klotho-compile", FailureClass::Package, "remove authoring artifact from package graph"));
    out.push(seeded(DiagnosticCode::JOURNEY, "klotho-debug", FailureClass::Journey, "repair owned semantic operation from minimized witness"));
    out.push(seeded(DiagnosticCode::BUDGET, "klotho-debug", FailureClass::Budget, "reduce scoped cost without weakening budget"));
    out.push(seeded(DiagnosticCode::HASH_DRIFT, "klotho-ir", FailureClass::Reproducibility, "reject candidate and isolate nondeterministic input"));
    assert(out@.len() == 9);
    assert(DiagnosticCode::CONTRADICTION@ == seeded_codes()[0]);
    assert(forall|i: int| 0 <= i < 9 ==> (#[trigger] out@[i]).source@ == seeded_sources()[i]
        && out@[i].legal_repairs@[0]@ == seeded_repairs()[i]);
    let ir: Vec<&'static str> = vec![
        "IR.Parse", "IR.Ser", "IR.EmptyName", "IR.NestedQuantifier", "IR.InvalidRiteCap",
        "IR.InvalidPhase", "IR.DuplicateChannel", "IR.InvalidModuleVersion", "IR.ImportCycle",
        "IR.HashDrift", "IR.DuplicateModule", "IR.MissingModule", "IR.TombstoneReuse",
        "IR.AliasCollision", "IR.UnboundParameter", "IR.DuplicateAnchor", "IR.MissingAnchor",
        "IR.DuplicateObjectName", "IR.ExportUnknown", "IR.ParameterTypeMismatch",
        "IR.UnexpandedPattern", "IR.InvalidFeel", "IR.InvalidA11y", "IR.MindProgramCap",
        "IR.InvalidMindProgram", "IR.UnsafeFarFact",
    ];
    push_group(&mut out, &ir, "klotho-ir", None);
    proof {
        let views = ir@.map_values(|c: &str| c@);
        assert(views =~= ir_codes());
        assert forall|k: int| 0 <= k < ir@.len() implies #[trigger] ir@[k]@ == ir_codes()[k] by {
            assert(views[k] == ir@[k]@);
        }
    }
    let ghost o0 = out@;
    let canon: Vec<&'static str> = vec![
        "CANON.MixedLabeling", "CANON.DuplicatePc", "CANON.MissingEntry", "CANON.MissingTarget",
        "CANON.Unreachable", "CANON.FallOff", "CANON.Cycle", "CANON.UnboundName", "CANON.InvalidDoc",
        "CANON.DuplicateId", "CANON.UnknownRetract", "CANON.PredTooLarge", "CANON.TableFull",
        "CANON.Contradiction", "CANON.LockableNeedsKeyOrRite",
    ];
    push_group(&mut out, &canon, "klotho-canon", None);
    proof {
        let views = canon@.map_values(|c: &str| c@);
        assert(views =~= canon_codes());
        assert forall|k: int| 0 <= k < canon@.len() implies #[trigger] canon@[k]@ == canon_codes()[k] by {
            assert(views[k] == canon@[k]@);
        }
    }
    let ghost o1 = out@;
    let prove: Vec<&'static str> = vec![
        "PROVE.UnknownLicense", "PROVE.InvalidLicense", "PROVE.MissingParent", "PROVE.MissingBlob",
        "PROVE.BlobTooLarge", "PROVE.CasFull",
    ];
    push_group(&mut out, &prove, "klotho-prove", Some(FailureClass::Provenance));
    proof {
        let views = prove@.map_values(|c: &str| c@);
        assert(views =~= prove_codes());
        assert forall|k: int| 0 <= k < prove@.len() implies #[trigger] prove@[k]@ == prove_codes()[k] by {
            assert(views[k] == prove@[k]@);
        }
    }
    let ghost o2 = out@;
    let compile: Vec<&'static str> = vec![
        "COMPILE.MissingTag", "COMPILE.LockMismatch", "COMPILE.MissingLockFile", "COMPILE.Catalog",
        "COMPILE.Header", "COMPILE.QuantizeOverflow", "COMPILE.Io", "COMPILE.Warp", "COMPILE.Gltf",
        "COMPILE.EpochOverflow", "COMPILE.Flatten", "COMPILE.PackageAllowlist",
    ];
    push_group(&mut out, &compile, "klotho-compile", None);
    proof {
        let views = compile@.map_values(|c: &str| c@);
        assert(views =~= compile_codes());
        assert forall|k: int| 0 <= k < compile@.len() implies #[trigger] compile@[k]@ == compile_codes()[k] by {
            assert(views[k] == compile@[k]@);
        }
    }
    let ghost o3 = out@;
    let pattern: Vec<&'static str> = vec![
        "PATTERN.Unknown", "PATTERN.Version", "PATTERN.Arg", "PATTERN.Capability", "PATTERN.Conflict",
        "PATTERN.Budget",
    ];
    push_group(&mut out, &pattern, "klotho-pattern", None);
    proof {
        let views = pattern@.map_values(|c: &str| c@);
        assert(views =~= pattern_codes());
        assert forall|k: int| 0 <= k < pattern@.len() implies #[trigger] pattern@[k]@ == pattern_codes()[k] by {
            assert(views[k] == pattern@[k]@);
        }
    }
    let ghost o4 = out@;
    let eval: Vec<&'static str> = vec![
        "EVAL.Stale", "EVAL.Select", "EVAL.Projection", "EVAL.Agency", "EVAL.Replay",
    ];
    push_group(&mut out, &eval, "klotho-eval", None);
    proof {
        let views = eval@.map_values(|c: &str| c@);
        assert(views =~= eval_codes());
        assert forall|k: int| 0 <= k < eval@.len() implies #[trigger] eval@[k]@ == eval_codes()[k] by {
            assert(views[k] == eval@[k]@);
        }
    }
    let ghost o5 = out@;
    let dialogue: Vec<&'static str> = vec![
        "DIALOGUE.Name", "DIALOGUE.Continuity", "DIALOGUE.Quest", "DIALOGUE.Line", "DIALOGUE.Loc",
        "DIALOGUE.Release", "DIALOGUE.Stale", "DIALOGUE.Replay",
    ];
    push_group(&mut out, &dialogue, "klotho-dialogue", None);
    proof {
        let views = dialogue@.map_values(|c: &str| c@);
        assert(views =~= dialogue_codes());
        assert forall|k: int| 0 <= k < dialogue@.len() implies #[trigger] dialogue@[k]@ == dialogue_codes()[k] by {
            assert(views[k] == dialogue@[k]@);
        }
    }
    let ghost o6 = out@;
    proof {
        assert forall|i: int| 9 <= i < 35 implies plain_row(#[trigger] out@[i], ir_codes()[i - 9], "klotho-ir"@, None) by {
            assert(out@[i] == o6[i] && o6[i] == o5[i] && o5[i] == o4[i] && o4[i] == o3[i] && o3[i] == o2[i] && o2[i] == o1[i] && o1[i] == o0[i]);
            assert(ir@[i - 9]@ == ir_codes()[i - 9]);
            assert(plain_row(o0[9 + (i - 9)], ir@[i - 9]@, "klotho-ir"@, None));
        }
        assert forall|i: int| 35 <= i < 50 implies plain_row(#[trigger] out@[i], canon_codes()[i - 35], "klotho-canon"@, None) by {
            assert(out@[i] == o6[i] && o6[i] == o5[i] && o5[i] == o4[i] && o4[i] == o3[i] && o3[i] == o2[i] && o2[i] == o1[i]);
            assert(canon@[i - 35]@ == canon_codes()[i - 35]);
            assert(plain_row(o1[35 + (i - 35)], canon@[i - 35]@, "klotho-canon"@, None));
        }
        assert forall|i: int| 50 <= i < 56 implies plain_row(#[trigger] out@[i], prove_codes()[i - 50], "klotho-prove"@, Some(FailureClass::Provenance)) by {
            assert(out@[i] == o6[i] && o6[i] == o5[i] && o5[i] == o4[i] && o4[i] == o3[i] && o3[i] == o2[i]);
            assert(prove@[i - 50]@ == prove_codes()[i - 50]);
            assert(plain_row(o2[50 + (i - 50)], prove@[i - 50]@, "klotho-prove"@, Some(FailureClass::Provenance)));
        }
        assert forall|i: int| 56 <= i < 68 implies plain_row(#[trigger] out@[i], compile_codes()[i - 56], "klotho-compile"@, None) by {
            assert(out@[i] == o6[i] && o6[i] == o5[i] && o5[i] == o4[i] && o4[i] == o3[i]);
            assert(compile@[i - 56]@ == compile_codes()[i - 56]);
            assert(plain_row(o3[56 + (i - 56)], compile@[i - 56]@, "klotho-compile"@, None));
        }
        assert forall|i: int| 68 <= i < 74 implies plain_row(#[trigger] out@[i], pattern_codes()[i - 68], "klotho-pattern"@, None) by {
            assert(out@[i] == o6[i] && o6[i] == o5[i] && o5[i] == o4[i]);
            assert(pattern@[i - 68]@ == pattern_codes()[i - 68]);
            assert(plain_row(o4[68 + (i - 68)], pattern@[i - 68]@, "klotho-pattern"@, None));
        }
        assert forall|i: int| 74 <= i < 79 implies plain_row(#[trigger] out@[i], eval_codes()[i - 74], "klotho-eval"@, None) by {
            assert(out@[i] == o6[i] && o6[i] == o5[i]);
            assert(eval@[i - 74]@ == eval_codes()[i - 74]);
            assert(plain_row(o5[74 + (i - 74)], eval@[i - 74]@, "klotho-eval"@, None));
        }
        assert forall|i: int| 79 <= i < 87 implies plain_row(#[trigger] out@[i], dialogue_codes()[i - 79], "klotho-dialogue"@, None) by {
            assert(out@[i] == o6[i]);
            assert(dialogue@[i - 79]@ == dialogue_codes()[i - 79]);
            assert(plain_row(o6[79 + (i - 79)], dialogue@[i - 79]@, "klotho-dialogue"@, None));
        }
    }
    let ghost o7 = out@;
    out.push(DiagnosticCatalogEntry {
        code: "DEBUG.Budget",
        source: "klotho-debug",
        class: FailureClass::Budget,
        retryable: true,
        legal_repairs: Vec::new(),
    });
    proof {
        assert forall|i: int| 9 <= i < 35 implies plain_row(#[trigger] out@[i], ir_codes()[i - 9], "klotho-ir"@, None) by {
            assert(out@[i] == o7[i]);
        }
        assert forall|i: int| 35 <= i < 50 implies plain_row(#[trigger] out@[i], canon_codes()[i - 35], "klotho-canon"@, None) by {
            assert(out@[i] == o7[i]);
        }
        assert forall|i: int| 50 <= i < 56 implies plain_row(#[trigger] out@[i], prove_codes()[i - 50], "klotho-prove"@, Some(FailureClass::Provenance)) by {
            assert(out@[i] == o7[i]);
        }
        assert forall|i: int| 56 <= i < 68 implies plain_row(#[trigger] out@[i], compile_codes()[i - 56], "klotho-compile"@, None) by {
            assert(out@[i] == o7[i]);
        }
        assert forall|i: int| 68 <= i < 74 implies plain_row(#[trigger] out@[i], pattern_codes()[i - 68], "klotho-pattern"@, None) by {
            assert(out@[i] == o7[i]);
        }
        assert forall|i: int| 74 <= i < 79 implies plain_row(#[trigger] out@[i], eval_codes()[i - 74], "klotho-eval"@, None) by {
            assert(out@[i] == o7[i]);
        }
        assert forall|i: int| 79 <= i < 87 implies plain_row(#[trigger] out@[i], dialogue_codes()[i - 79], "klotho-dialogue"@, None) by {
            assert(out@[i] == o7[i]);
        }
    }
    out
}

/// Unicode control characters (general category Cc).
pub open spec fn is_control(c: char) -> bool {
    c <= '\u{1f}' || ('\u{7f}' <= c && c <= '\u{9f}')
}

/// How one character is written inside a data label.
pub open spec fn escape_char(c: char) -> Seq<char> {
    if c == '"' {
        seq!['\\', '"']
    } else if c == '\\' {
        seq!['\\', '\\']
    } else if c == '\n' {
        seq!['\\', 'n']
    } else if c == '\r' {
        seq!['\\', 'r']
    } else if is_control(c) {
        seq!['?']
    } else {
        seq![c]
    }
}

/// Every character escaped, in order.
pub open spec fn escaped(s: Seq<char>) -> Seq<char>
    decreases s.len(),
{
    if s.len() == 0 {
        Seq::empty()
    } else {
        escaped(s.drop_last()) + escape_char(s.last())
    }
}

/// `data:"…"` around the escaped text.
pub open spec fn spec_as_data(t: Seq<char>) -> Seq<char> {
    seq!['d', 'a', 't', 'a', ':', '"'] + escaped(t) + seq!['"']
}

fn push_escaped(out: &mut Vec<char>, c: char)
    ensures
        final(out)@ == old(out)@ + escape_char(c),
{
    if c == '"' {
        out.push('\\');
        out.push('"');
    } else if c == '\\' {
        out.push('\\');
        out.push('\\');
    } else if c == '\n' {
        out.push('\\');
        out.push('n');
    } else if c == '\r' {
        out.push('\\');
        out.push('r');
    } else if c <= '\u{1f}' || ('\u{7f}' <= c && c <= '\u{9f}') {
        out.push('?');
    } else {
        out.push(c);
    }
    assert(final(out)@ =~= old(out)@ + escape_char(c));
}

/// Label untrusted or external text as data: quotes, backslashes, line
/// breaks and control characters are escaped inside `data:"…"`.
pub fn as_data(text: &str) -> (r: String)
    ensures
        r@ == spec_as_data(text@),
{
    let cs = chars_of(text);
    let mut out: Vec<char> = Vec::new();
    out.push('d');
    out.push('a');
    out.push('t');
    out.push('a');
    out.push(':');
    out.push('"');
    let ghost head = out@;
    let mut i: usize = 0;
    while i < cs.len()
        invariant
            cs@ == text@,
            0 <= i <= cs@.len(),
            head == seq!['d', 'a', 't', 'a', ':', '"'],
            out@ == head + escaped(cs@.take(i as int)),
        decreases cs@.len() - i,
    {
        push_escaped(&mut out, cs[i]);
        proof {
            assert(cs@.take(i + 1).drop_last() =~= cs@.take(i as int));
        }
        i = i + 1;
    }
    out.push('"');
    proof {
        assert(cs@.take(cs@.len() as int) =~= cs@);
        assert(out@ =~= spec_as_data(text@));
    }
    string_of(&out)
}

} // verus!

//! Mind packets and compiled authoring programs: the content-independent
//! caps, local fact references and the conservative Far boundary that
//! validation enforces. No agency is carried here.
use vstd::prelude::*;

use crate::failure::text;
use crate::ir_error::IrError;
use crate::names::{Name, Verb};
use crate::target::IntentTarget;
use crate::units::{Mm, Sigil};

verus! {

/// Maximum visible facts in one Full planning call.
pub const MAX_MIND_FACTS: usize = 64;

/// Maximum compiled operators in one program.
pub const MAX_MIND_OPERATORS: usize = 32;

/// Maximum simultaneous candidate goals.
pub const MAX_MIND_GOALS: usize = 4;

/// Maximum distinct Far table inputs.
pub const MAX_FAR_INPUTS: usize = 16;

/// Desire emitted by a planner or a Beat: the player's admission path,
/// minus agency.
#[derive(Clone, PartialEq, Eq, Hash, Debug)]
pub struct MindIntent {
    /// Acting NPC locus.
    pub locus: Sigil,
    /// Verb.
    pub verb: Verb,
    /// Target.
    pub target: IntentTarget,
    /// Debug ranking. Not replicated as authority.
    pub utility: u16,
}

impl MindIntent {
    /// Structural checks: a named target needs a non-empty name.
    pub fn validate(&self) -> (r: Result<(), IrError>)
        ensures
            (self.target matches IntentTarget::Name(n) && n@.len() == 0) ==> r == Err::<(), IrError>(
                IrError::EmptyName,
            ),
            !(self.target matches IntentTarget::Name(n) && n@.len() == 0) ==> r is Ok,
    {
        self.target.check()
    }
}

/// Relation tags a Mind query may name. The full tag set belongs to the
/// intent crate's root; validation never reads the tag.
#[derive(Copy, Clone, PartialEq, Eq, Hash, Debug)]
pub enum Rel {
    /// Ownership.
    OwnedBy,
}

/// A locus operand resolved from the actor and immutable seed pins.
#[derive(Clone, PartialEq, Eq, Hash, Debug)]
pub enum MindRef {
    /// The actor owning the program.
    This,
    /// An immutable seed pin.
    Pin(Name),
    /// First relation target in Projection order.
    Related(Rel),
}

/// A bounded, visible input fact.
#[derive(Clone, PartialEq, Eq, Hash, Debug)]
pub enum MindQuery {
    /// Constant false.
    Never,
    /// Constant true.
    Always,
    /// Projection relation membership.
    Related {
        /// Relation subject.
        a: MindRef,
        /// Relation tag.
        rel: Rel,
        /// Relation object.
        b: MindRef,
    },
    /// Integer Projection quantity threshold.
    QtyAtLeast {
        /// Quantity owner.
        of: MindRef,
        /// Resource name.
        res: Name,
        /// Inclusive threshold.
        min: i32,
    },
    /// Some locus has at least `min` of a resource.
    AnyQtyAtLeast {
        /// Resource name.
        res: Name,
        /// Inclusive threshold.
        min: i32,
    },
    /// Integer XZ Chebyshev distance.
    Near {
        /// First locus.
        a: MindRef,
        /// Second locus.
        b: MindRef,
        /// Inclusive distance.
        within: Mm,
    },
    /// Deterministic Beat clock row.
    TickModulo {
        /// Non-zero period.
        period: u16,
        /// Phase less than `period`.
        phase: u16,
    },
}

/// One named visible fact in a compiled program.
#[derive(Clone, PartialEq, Eq, Hash, Debug)]
pub struct MindFact {
    /// Program-local identity.
    pub id: Name,
    /// Projection-derived query.
    pub query: MindQuery,
    /// Whether Far may read or affect this unprotected fact.
    pub far_safe: bool,
}

/// Target of an authored Mind action.
#[derive(Clone, PartialEq, Eq, Hash, Debug)]
pub enum MindTarget {
    /// No target.
    NoTarget,
    /// Resolve a locus reference.
    Ref(MindRef),
}

/// One compiled planning operator.
#[derive(Clone, PartialEq, Eq, Hash, Debug)]
pub struct MindOperator {
    /// Program-local identity.
    pub id: Name,
    /// Facts that must be true.
    pub requires: Vec<Name>,
    /// Facts made true after the action.
    pub sets: Vec<Name>,
    /// Facts made false after the action.
    pub clears: Vec<Name>,
    /// Non-zero planning cost.
    pub cost: u16,
    /// Verb emitted for the first plan step.
    pub verb: Verb,
    /// Runtime target.
    pub target: MindTarget,
}

/// One utility-ranked desired fact set.
#[derive(Clone, PartialEq, Eq, Hash, Debug)]
pub struct MindGoal {
    /// Goal id.
    pub id: Name,
    /// Facts which define completion.
    pub desired: Vec<Name>,
    /// Utility; higher wins, declaration order breaks ties.
    pub utility: u16,
}

/// One direct table row for Far detail; Far never searches.
#[derive(Clone, PartialEq, Eq, Hash, Debug)]
pub struct FarRule {
    /// Facts read by the row.
    pub requires: Vec<Name>,
    /// Facts the action may affect; each must be Far-safe.
    pub effects: Vec<Name>,
    /// Emitted verb.
    pub verb: Verb,
    /// Emitted target.
    pub target: MindTarget,
    /// Utility for deterministic row selection.
    pub utility: u16,
}

/// Behaviour and encounter policy of one actor.
#[derive(Clone, PartialEq, Eq, Hash, Debug, Default)]
pub struct MindProgram {
    /// Optional Beat identity.
    pub beat: Option<Name>,
    /// Visible facts.
    pub facts: Vec<MindFact>,
    /// Full-detail operators.
    pub operators: Vec<MindOperator>,
    /// Full-detail candidate goals.
    pub goals: Vec<MindGoal>,
    /// Far-detail direct policy table.
    pub far: Vec<FarRule>,
}

/// Which locus uses a program, and its dialogue templates.
#[derive(Clone, PartialEq, Eq, Hash, Debug)]
pub struct MindSpec {
    /// Seed name of the actor.
    pub locus: Name,
    /// Authored tables.
    pub program: MindProgram,
    /// Slot templates.
    pub templates: Vec<String>,
}

/// Why a Mind program is refused.
pub enum MindFault {
    /// A table over its cap: table, authored count, cap.
    Cap(Seq<char>, int, int),
    /// An empty id.
    EmptyName,
    /// A bad item: reason and item id.
    Invalid(Seq<char>, Seq<char>),
    /// A Far row that is targeted or not a Look, Move or Investigate.
    FarShape,
    /// A Beat clock with a zero period or a phase not below it.
    Clock,
    /// A protected fact that Far would read or affect.
    UnsafeFar(Seq<char>),
}

/// `e` is the error that reports fault `f` of the program of `locus`.
pub open spec fn mind_err(e: IrError, locus: Seq<char>, f: MindFault) -> bool {
    match f {
        MindFault::Cap(res, actual, cap) => e matches IrError::MindProgramCap { locus: l, resource: r, actual: a, cap: c }
            && l@ == locus && r@ == res && a == actual && c == cap,
        MindFault::EmptyName => e == IrError::EmptyName,
        MindFault::Invalid(reason, item) => e matches IrError::InvalidMindProgram(m) && m@ == locus + ": "@ + reason
            + " "@ + item,
        MindFault::FarShape => e matches IrError::InvalidMindProgram(m) && m@ == locus
            + ": Far action must be un-targeted Look, Move, or Investigate"@,
        MindFault::Clock => e matches IrError::InvalidMindProgram(m) && m@ == "invalid Beat clock"@,
        MindFault::UnsafeFar(fact) => e matches IrError::UnsafeFarFact { locus: l, fact: x } && l@ == locus && x@
            == fact,
    }
}

/// The first of two checks that fails.
pub open spec fn either(a: Option<MindFault>, b: Option<MindFault>) -> Option<MindFault> {
    if a is Some {
        a
    } else {
        b
    }
}

/// An empty id.
pub open spec fn id_fault(n: Name) -> Option<MindFault> {
    if n@.len() == 0 {
        Some(MindFault::EmptyName)
    } else {
        None
    }
}

/// A seed pin needs a name.
pub open spec fn ref_fault(r: MindRef) -> Option<MindFault> {
    match r {
        MindRef::Pin(n) => id_fault(n),
        _ => None,
    }
}

/// Operands named, and a Beat clock with `phase < period`.
pub open spec fn query_fault(q: MindQuery) -> Option<MindFault> {
    match q {
        MindQuery::Related { a, b, .. } => either(ref_fault(a), ref_fault(b)),
        MindQuery::Near { a, b, .. } => either(ref_fault(a), ref_fault(b)),
        MindQuery::QtyAtLeast { of, res, .. } => either(ref_fault(of), id_fault(res)),
        MindQuery::AnyQtyAtLeast { res, .. } => id_fault(res),
        MindQuery::TickModulo { period, phase } => if period == 0 || phase >= period {
            Some(MindFault::Clock)
        } else {
            None
        },
        _ => None,
    }
}

/// Queries Far may read: constants and the Beat clock.
pub open spec fn far_kind(q: MindQuery) -> bool {
    q is Never || q is Always || q is TickModulo
}

/// Fact `i`: named, its query sound, Far-safe only when Far may read it,
/// and its id unlike the ids before it.
pub open spec fn fact_fault(facts: Seq<MindFact>, i: int) -> Option<MindFault> {
    let f = facts[i];
    if f.id@.len() == 0 {
        Some(MindFault::EmptyName)
    } else if query_fault(f.query) is Some {
        query_fault(f.query)
    } else if f.far_safe && !far_kind(f.query) {
        Some(MindFault::UnsafeFar(f.id@))
    } else if exists|j: int| 0 <= j < i && (#[trigger] facts[j]).id@ == f.id@ {
        Some(MindFault::Invalid("duplicate fact"@, f.id@))
    } else {
        None
    }
}

/// The first fault among facts `0..k`.
pub open spec fn facts_first(facts: Seq<MindFact>, k: nat) -> Option<MindFault>
    decreases k,
{
    if k == 0 {
        None
    } else {
        either(facts_first(facts, (k - 1) as nat), fact_fault(facts, k - 1))
    }
}

/// Some fact has id `n`.
pub open spec fn has_fact(facts: Seq<MindFact>, n: Seq<char>) -> bool {
    exists|j: int| 0 <= j < facts.len() && (#[trigger] facts[j]).id@ == n
}

/// A referenced fact: named and present.
pub open spec fn use_fault(facts: Seq<MindFact>, n: Name) -> Option<MindFault> {
    if n@.len() == 0 {
        Some(MindFault::EmptyName)
    } else if !has_fact(facts, n@) {
        Some(MindFault::Invalid("unknown fact"@, n@))
    } else {
        None
    }
}

/// The first bad reference among `names[0..k]`.
pub open spec fn uses_first(facts: Seq<MindFact>, names: Seq<Name>, k: nat) -> Option<MindFault>
    decreases k,
{
    if k == 0 {
        None
    } else {
        either(uses_first(facts, names, (k - 1) as nat), use_fault(facts, names[k - 1]))
    }
}

/// The first bad reference among `names`.
pub open spec fn uses_fault(facts: Seq<MindFact>, names: Seq<Name>) -> Option<MindFault> {
    uses_first(facts, names, names.len())
}

/// A target's locus reference is sound.
pub open spec fn target_fault(t: MindTarget) -> Option<MindFault> {
    match t {
        MindTarget::Ref(r) => ref_fault(r),
        _ => None,
    }
}

/// Operator `i`: named; positive cost, not `Time`, id unlike earlier ones;
/// its facts present; its target sound.
pub open spec fn op_fault(facts: Seq<MindFact>, ops: Seq<MindOperator>, i: int) -> Option<MindFault> {
    let o = ops[i];
    if o.id@.len() == 0 {
        Some(MindFault::EmptyName)
    } else if o.cost == 0 || o.verb == Verb::Time || exists|j: int| 0 <= j < i && (#[trigger] ops[j]).id@ == o.id@ {
        Some(MindFault::Invalid("invalid operator"@, o.id@))
    } else {
        either(uses_fault(facts, o.requires@ + o.sets@ + o.clears@), target_fault(o.target))
    }
}

/// The first fault among operators `0..k`.
pub open spec fn ops_first(facts: Seq<MindFact>, ops: Seq<MindOperator>, k: nat) -> Option<MindFault>
    decreases k,
{
    if k == 0 {
        None
    } else {
        either(ops_first(facts, ops, (k - 1) as nat), op_fault(facts, ops, k - 1))
    }
}

/// Goal `i`: named, something desired, id unlike earlier ones, facts present.
pub open spec fn goal_fault(facts: Seq<MindFact>, goals: Seq<MindGoal>, i: int) -> Option<MindFault> {
    let g = goals[i];
    if g.id@.len() == 0 {
        Some(MindFault::EmptyName)
    } else if g.desired@.len() == 0 || exists|j: int| 0 <= j < i && (#[trigger] goals[j]).id@ == g.id@ {
        Some(MindFault::Invalid("invalid goal"@, g.id@))
    } else {
        uses_fault(facts, g.desired@)
    }
}

/// The first fault among goals `0..k`.
pub open spec fn goals_first(facts: Seq<MindFact>, goals: Seq<MindGoal>, k: nat) -> Option<MindFault>
    decreases k,
{
    if k == 0 {
        None
    } else {
        either(goals_first(facts, goals, (k - 1) as nat), goal_fault(facts, goals, k - 1))
    }
}

/// A fact Far may touch: some Far-safe fact has this id.
pub open spec fn safe_fault(facts: Seq<MindFact>, n: Name) -> Option<MindFault> {
    if exists|j: int| 0 <= j < facts.len() && (#[trigger] facts[j]).id@ == n@ && facts[j].far_safe {
        None
    } else {
        Some(MindFault::UnsafeFar(n@))
    }
}

/// The first protected fact among `names[0..k]`.
pub open spec fn safes_first(facts: Seq<MindFact>, names: Seq<Name>, k: nat) -> Option<MindFault>
    decreases k,
{
    if k == 0 {
        None
    } else {
        either(safes_first(facts, names, (k - 1) as nat), safe_fault(facts, names[k - 1]))
    }
}

/// The facts a Far row touches: what it reads, then what it affects.
pub open spec fn row_names(r: FarRule) -> Seq<Name> {
    r.requires@ + r.effects@
}

/// A Far row: its facts present, its target sound, an un-targeted Look,
/// Move or Investigate, and every fact it touches Far-safe.
pub open spec fn row_fault(facts: Seq<MindFact>, r: FarRule) -> Option<MindFault> {
    either(
        uses_fault(facts, row_names(r)),
        either(
            target_fault(r.target),
            if !(r.verb == Verb::Look || r.verb == Verb::Move || r.verb == Verb::Investigate) || !(r.target is NoTarget) {
                Some(MindFault::FarShape)
            } else {
                safes_first(facts, row_names(r), row_names(r).len())
            },
        ),
    )
}

/// The first fault among Far rows `0..k`.
pub open spec fn rows_first(facts: Seq<MindFact>, rows: Seq<FarRule>, k: nat) -> Option<MindFault>
    decreases k,
{
    if k == 0 {
        None
    } else {
        either(rows_first(facts, rows, (k - 1) as nat), row_fault(facts, rows[k - 1]))
    }
}

/// Every fact the first `k` Far rows touch, in order.
pub open spec fn far_names(rows: Seq<FarRule>, k: nat) -> Seq<Name>
    decreases k,
{
    if k == 0 {
        seq![]
    } else {
        far_names(rows, (k - 1) as nat) + row_names(rows[k - 1])
    }
}

/// The number of distinct ids among `s[0..k]`.
pub open spec fn distinct(s: Seq<Name>, k: nat) -> nat
    decreases k,
{
    if k == 0 {
        0
    } else if exists|j: int| 0 <= j < k - 1 && (#[trigger] s[j])@ == s[k - 1]@ {
        distinct(s, (k - 1) as nat)
    } else {
        distinct(s, (k - 1) as nat) + 1
    }
}

/// The first fault of a program, in checking order: the fact, operator and
/// goal caps; a named Beat; facts; operators; goals; Far rows; and the
/// number of distinct Far inputs.
pub open spec fn program_fault(p: MindProgram) -> Option<MindFault> {
    let facts = p.facts@;
    let all = far_names(p.far@, p.far@.len());
    if facts.len() > MAX_MIND_FACTS {
        Some(MindFault::Cap("facts"@, facts.len() as int, MAX_MIND_FACTS as int))
    } else if p.operators@.len() > MAX_MIND_OPERATORS {
        Some(MindFault::Cap("operators"@, p.operators@.len() as int, MAX_MIND_OPERATORS as int))
    } else if p.goals@.len() > MAX_MIND_GOALS {
        Some(MindFault::Cap("goals"@, p.goals@.len() as int, MAX_MIND_GOALS as int))
    } else if p.beat matches Some(n) && n@.len() == 0 {
        Some(MindFault::EmptyName)
    } else if facts_first(facts, facts.len()) is Some {
        facts_first(facts, facts.len())
    } else if ops_first(facts, p.operators@, p.operators@.len()) is Some {
        ops_first(facts, p.operators@, p.operators@.len())
    } else if goals_first(facts, p.goals@, p.goals@.len()) is Some {
        goals_first(facts, p.goals@, p.goals@.len())
    } else if rows_first(facts, p.far@, p.far@.len()) is Some {
        rows_first(facts, p.far@, p.far@.len())
    } else if distinct(all, all.len()) > MAX_FAR_INPUTS {
        Some(MindFault::Cap("far inputs"@, distinct(all, all.len()) as int, MAX_FAR_INPUTS as int))
    } else {
        None
    }
}

/// The first fault of a spec: a named actor, then its program.
pub open spec fn spec_fault(s: MindSpec) -> Option<MindFault> {
    if s.locus@.len() == 0 {
        Some(MindFault::EmptyName)
    } else {
        program_fault(s.program)
    }
}

fn same_name(a: &Name, b: &Name) -> (r: bool)
    ensures
        r == (a@ == b@),
{
    crate::diag::str_eq(a.as_str(), b.as_str())
}

fn invalid(locus: &Name, reason: &str, item: &Name) -> (e: IrError)
    ensures
        mind_err(e, locus@, MindFault::Invalid(reason@, item@)),
{
    let mut m = text(locus.as_str());
    m.append(": ");
    m.append(reason);
    m.append(" ");
    m.append(item.as_str());
    IrError::InvalidMindProgram(m)
}

fn cap_error(locus: &Name, resource: &str, actual: usize, limit: usize) -> (e: IrError)
    ensures
        mind_err(e, locus@, MindFault::Cap(resource@, actual as int, limit as int)),
{
    IrError::MindProgramCap { locus: text(locus.as_str()), resource: text(resource), actual, cap: limit }
}

fn unsafe_far(locus: &Name, fact: &Name) -> (e: IrError)
    ensures
        mind_err(e, locus@, MindFault::UnsafeFar(fact@)),
{
    IrError::UnsafeFarFact { locus: text(locus.as_str()), fact: text(fact.as_str()) }
}

fn check_ref(r: &MindRef) -> (res: Result<(), IrError>)
    ensures
        match ref_fault(*r) {
            None => res is Ok,
            Some(f) => res matches Err(e) && f is EmptyName && e == IrError::EmptyName,
        },
{
    match r {
        MindRef::Pin(n) => n.check(),
        _ => Ok(()),
    }
}

fn check_query(q: &MindQuery) -> (res: Result<(), IrError>)
    ensures
        match query_fault(*q) {
            None => res is Ok,
            Some(f) => res matches Err(e) && (f is EmptyName || f is Clock) && forall|l: Seq<char>| #[trigger] mind_err(e, l, f),
        },
{
    match q {
        MindQuery::Related { a, b, .. } => {
            check_ref(a)?;
            check_ref(b)
        },
        MindQuery::Near { a, b, .. } => {
            check_ref(a)?;
            check_ref(b)
        },
        MindQuery::QtyAtLeast { of, res, .. } => {
            check_ref(of)?;
            res.check()
        },
        MindQuery::AnyQtyAtLeast { res, .. } => res.check(),
        MindQuery::TickModulo { period, phase } => {
            if *period == 0 || *phase >= *period {
                Err(IrError::InvalidMindProgram(text("invalid Beat clock")))
            } else {
                Ok(())
            }
        },
        _ => Ok(()),
    }
}

fn check_target(t: &MindTarget) -> (res: Result<(), IrError>)
    ensures
        match target_fault(*t) {
            None => res is Ok,
            Some(f) => res matches Err(e) && f is EmptyName && e == IrError::EmptyName,
        },
{
    match t {
        MindTarget::Ref(r) => check_ref(r),
        _ => Ok(()),
    }
}

fn fact_present(facts: &Vec<MindFact>, n: &Name) -> (r: bool)
    ensures
        r == has_fact(facts@, n@),
{
    let mut j: usize = 0;
    while j < facts.len()
        invariant
            j <= facts@.len(),
            forall|q: int| 0 <= q < j ==> (#[trigger] facts@[q]).id@ != n@,
        decreases facts@.len() - j,
    {
        if same_name(&facts[j].id, n) {
            return true;
        }
        j = j + 1;
    }
    false
}

fn safe_present(facts: &Vec<MindFact>, n: &Name) -> (r: bool)
    ensures
        r == (exists|j: int| 0 <= j < facts@.len() && (#[trigger] facts@[j]).id@ == n@ && facts@[j].far_safe),
{
    let mut j: usize = 0;
    while j < facts.len()
        invariant
            j <= facts@.len(),
            forall|q: int| 0 <= q < j ==> !((#[trigger] facts@[q]).id@ == n@ && facts@[q].far_safe),
        decreases facts@.len() - j,
    {
        if facts[j].far_safe && same_name(&facts[j].id, n) {
            return true;
        }
        j = j + 1;
    }
    false
}

proof fn lemma_uses_stops(facts: Seq<MindFact>, names: Seq<Name>, k: nat, m: nat)
    requires
        k <= m,
        uses_first(facts, names, k) is Some,
    ensures
        uses_first(facts, names, m) == uses_first(facts, names, k),
    decreases m,
{
    if m > k {
        lemma_uses_stops(facts, names, k, (m - 1) as nat);
    }
}

proof fn lemma_safes_stops(facts: Seq<MindFact>, names: Seq<Name>, k: nat, m: nat)
    requires
        k <= m,
        safes_first(facts, names, k) is Some,
    ensures
        safes_first(facts, names, m) == safes_first(facts, names, k),
    decreases m,
{
    if m > k {
        lemma_safes_stops(facts, names, k, (m - 1) as nat);
    }
}

fn check_uses(locus: &Name, facts: &Vec<MindFact>, names: &Vec<Name>) -> (res: Result<(), IrError>)
    ensures
        match uses_fault(facts@, names@) {
            None => res is Ok,
            Some(f) => res matches Err(e) && mind_err(e, locus@, f),
        },
{
    let mut i: usize = 0;
    while i < names.len()
        invariant
            i <= names@.len(),
            uses_first(facts@, names@, i as nat) is None,
        decreases names@.len() - i,
    {
        let n = &names[i];
        if n.check().is_err() {
            proof {
                lemma_uses_stops(facts@, names@, (i + 1) as nat, names@.len());
            }
            return Err(IrError::EmptyName);
        }
        if !fact_present(facts, n) {
            proof {
                lemma_uses_stops(facts@, names@, (i + 1) as nat, names@.len());
            }
            return Err(invalid(locus, "unknown fact", n));
        }
        i = i + 1;
    }
    Ok(())
}

fn check_safes(locus: &Name, facts: &Vec<MindFact>, names: &Vec<Name>) -> (res: Result<(), IrError>)
    ensures
        match safes_first(facts@, names@, names@.len()) {
            None => res is Ok,
            Some(f) => res matches Err(e) && mind_err(e, locus@, f),
        },
{
    let mut i: usize = 0;
    while i < names.len()
        invariant
            i <= names@.len(),
            safes_first(facts@, names@, i as nat) is None,
        decreases names@.len() - i,
    {
        let n = &names[i];
        if !safe_present(facts, n) {
            proof {
                lemma_safes_stops(facts@, names@, (i + 1) as nat, names@.len());
            }
            return Err(unsafe_far(locus, n));
        }
        i = i + 1;
    }
    Ok(())
}

fn join(a: &Vec<Name>, b: &Vec<Name>) -> (r: Vec<Name>)
    ensures
        r@ == a@ + b@,
{
    let mut out: Vec<Name> = Vec::new();
    let mut i: usize = 0;
    while i < a.len()
        invariant
            i <= a@.len(),
            out@ == a@.take(i as int),
        decreases a@.len() - i,
    {
        out.push(a[i].dup());
        i = i + 1;
        assert(out@ =~= a@.take(i as int));
    }
    let mut j: usize = 0;
    while j < b.len()
        invariant
            j <= b@.len(),
            out@ == a@ + b@.take(j as int),
        decreases b@.len() - j,
    {
        out.push(b[j].dup());
        j = j + 1;
        assert(out@ =~= a@ + b@.take(j as int));
    }
    assert(b@.take(b@.len() as int) =~= b@);
    out
}

proof fn lemma_facts_stops(facts: Seq<MindFact>, k: nat, m: nat)
    requires
        k <= m,
        facts_first(facts, k) is Some,
    ensures
        facts_first(facts, m) == facts_first(facts, k),
    decreases m,
{
    if m > k {
        lemma_facts_stops(facts, k, (m - 1) as nat);
    }
}

proof fn lemma_ops_stops(facts: Seq<MindFact>, ops: Seq<MindOperator>, k: nat, m: nat)
    requires
        k <= m,
        ops_first(facts, ops, k) is Some,
    ensures
        ops_first(facts, ops, m) == ops_first(facts, ops, k),
    decreases m,
{
    if m > k {
        lemma_ops_stops(facts, ops, k, (m - 1) as nat);
    }
}

proof fn lemma_goals_stops(facts: Seq<MindFact>, goals: Seq<MindGoal>, k: nat, m: nat)
    requires
        k <= m,
        goals_first(facts, goals, k) is Some,
    ensures
        goals_first(facts, goals, m) == goals_first(facts, goals, k),
    decreases m,
{
    if m > k {
        lemma_goals_stops(facts, goals, k, (m - 1) as nat);
    }
}

proof fn lemma_rows_stops(facts: Seq<MindFact>, rows: Seq<FarRule>, k: nat, m: nat)
    requires
        k <= m,
        rows_first(facts, rows, k) is Some,
    ensures
        rows_first(facts, rows, m) == rows_first(facts, rows, k),
    decreases m,
{
    if m > k {
        lemma_rows_stops(facts, rows, k, (m - 1) as nat);
    }
}

fn fact_dup(facts: &Vec<MindFact>, i: usize) -> (r: bool)
    requires
        i < facts@.len(),
    ensures
        r == exists|j: int| 0 <= j < i && (#[trigger] facts@[j]).id@ == facts@[i as int].id@,
{
    let mut j: usize = 0;
    while j < i
        invariant
            j <= i < facts@.len(),
            forall|q: int| 0 <= q < j ==> (#[trigger] facts@[q]).id@ != facts@[i as int].id@,
        decreases i - j,
    {
        if same_name(&facts[j].id, &facts[i].id) {
            assert(facts@[j as int].id@ == facts@[i as int].id@);
            return true;
        }
        j = j + 1;
    }
    false
}

fn op_dup(ops: &Vec<MindOperator>, i: usize) -> (r: bool)
    requires
        i < ops@.len(),
    ensures
        r == exists|j: int| 0 <= j < i && (#[trigger] ops@[j]).id@ == ops@[i as int].id@,
{
    let mut j: usize = 0;
    while j < i
        invariant
            j <= i < ops@.len(),
            forall|q: int| 0 <= q < j ==> (#[trigger] ops@[q]).id@ != ops@[i as int].id@,
        decreases i - j,
    {
        if same_name(&ops[j].id, &ops[i].id) {
            assert(ops@[j as int].id@ == ops@[i as int].id@);
            return true;
        }
        j = j + 1;
    }
    false
}

fn goal_dup(goals: &Vec<MindGoal>, i: usize) -> (r: bool)
    requires
        i < goals@.len(),
    ensures
        r == exists|j: int| 0 <= j < i && (#[trigger] goals@[j]).id@ == goals@[i as int].id@,
{
    let mut j: usize = 0;
    while j < i
        invariant
            j <= i < goals@.len(),
            forall|q: int| 0 <= q < j ==> (#[trigger] goals@[q]).id@ != goals@[i as int].id@,
        decreases i - j,
    {
        if same_name(&goals[j].id, &goals[i].id) {
            assert(goals@[j as int].id@ == goals@[i as int].id@);
            return true;
        }
        j = j + 1;
    }
    false
}

fn check_facts(locus: &Name, facts: &Vec<MindFact>) -> (res: Result<(), IrError>)
    ensures
        match facts_first(facts@, facts@.len()) {
            None => res is Ok,
            Some(f) => res matches Err(e) && mind_err(e, locus@, f),
        },
{
    let mut i: usize = 0;
    while i < facts.len()
        invariant
            i <= facts@.len(),
            facts_first(facts@, i as nat) is None,
        decreases facts@.len() - i,
    {
        let f = &facts[i];
        if f.id.check().is_err() {
            proof {
                lemma_facts_stops(facts@, (i + 1) as nat, facts@.len());
            }
            return Err(IrError::EmptyName);
        }
        match check_query(&f.query) {
            Err(e) => {
                proof {
                    lemma_facts_stops(facts@, (i + 1) as nat, facts@.len());
                    assert(mind_err(e, locus@, query_fault(f.query)->Some_0));
                }
                return Err(e);
            },
            Ok(()) => {},
        }
        let far_kind = match f.query {
            MindQuery::Never => true,
            MindQuery::Always => true,
            MindQuery::TickModulo { .. } => true,
            _ => false,
        };
        if f.far_safe && !far_kind {
            proof {
                lemma_facts_stops(facts@, (i + 1) as nat, facts@.len());
            }
            return Err(unsafe_far(locus, &f.id));
        }
        if fact_dup(facts, i) {
            proof {
                lemma_facts_stops(facts@, (i + 1) as nat, facts@.len());
            }
            return Err(invalid(locus, "duplicate fact", &facts[i].id));
        }
        i = i + 1;
    }
    Ok(())
}

fn check_ops(locus: &Name, facts: &Vec<MindFact>, ops: &Vec<MindOperator>) -> (res: Result<(), IrError>)
    ensures
        match ops_first(facts@, ops@, ops@.len()) {
            None => res is Ok,
            Some(f) => res matches Err(e) && mind_err(e, locus@, f),
        },
{
    let mut i: usize = 0;
    while i < ops.len()
        invariant
            i <= ops@.len(),
            ops_first(facts@, ops@, i as nat) is None,
        decreases ops@.len() - i,
    {
        let o = &ops[i];
        if o.id.check().is_err() {
            proof {
                lemma_ops_stops(facts@, ops@, (i + 1) as nat, ops@.len());
            }
            return Err(IrError::EmptyName);
        }
        let dup = op_dup(ops, i);
        if o.cost == 0 || o.verb == Verb::Time || dup {
            proof {
                lemma_ops_stops(facts@, ops@, (i + 1) as nat, ops@.len());
            }
            return Err(invalid(locus, "invalid operator", &o.id));
        }
        let first = join(&o.requires, &o.sets);
        let names = join(&first, &o.clears);
        match check_uses(locus, facts, &names) {
            Err(e) => {
                proof {
                    lemma_ops_stops(facts@, ops@, (i + 1) as nat, ops@.len());
                }
                return Err(e);
            },
            Ok(()) => {},
        }
        match check_target(&o.target) {
            Err(e) => {
                proof {
                    lemma_ops_stops(facts@, ops@, (i + 1) as nat, ops@.len());
                }
                return Err(e);
            },
            Ok(()) => {},
        }
        i = i + 1;
    }
    Ok(())
}

fn check_goals(locus: &Name, facts: &Vec<MindFact>, goals: &Vec<MindGoal>) -> (res: Result<(), IrError>)
    ensures
        match goals_first(facts@, goals@, goals@.len()) {
            None => res is Ok,
            Some(f) => res matches Err(e) && mind_err(e, locus@, f),
        },
{
    let mut i: usize = 0;
    while i < goals.len()
        invariant
            i <= goals@.len(),
            goals_first(facts@, goals@, i as nat) is None,
        decreases goals@.len() - i,
    {
        let g = &goals[i];
        if g.id.check().is_err() {
            proof {
                lemma_goals_stops(facts@, goals@, (i + 1) as nat, goals@.len());
            }
            return Err(IrError::EmptyName);
        }
        let dup = goal_dup(goals, i);
        if g.desired.len() == 0 || dup {
            proof {
                lemma_goals_stops(facts@, goals@, (i + 1) as nat, goals@.len());
            }
            return Err(invalid(locus, "invalid goal", &g.id));
        }
        match check_uses(locus, facts, &g.desired) {
            Err(e) => {
                proof {
                    lemma_goals_stops(facts@, goals@, (i + 1) as nat, goals@.len());
                }
                return Err(e);
            },
            Ok(()) => {},
        }
        i = i + 1;
    }
    Ok(())
}

fn check_rows(locus: &Name, facts: &Vec<MindFact>, rows: &Vec<FarRule>) -> (res: Result<(), IrError>)
    ensures
        match rows_first(facts@, rows@, rows@.len()) {
            None => res is Ok,
            Some(f) => res matches Err(e) && mind_err(e, locus@, f),
        },
{
    let mut i: usize = 0;
    while i < rows.len()
        invariant
            i <= rows@.len(),
            rows_first(facts@, rows@, i as nat) is None,
        decreases rows@.len() - i,
    {
        let r = &rows[i];
        let names = join(&r.requires, &r.effects);
        let shape_ok = (r.verb == Verb::Look || r.verb == Verb::Move || r.verb == Verb::Investigate) && match r.target {
            MindTarget::NoTarget => true,
            _ => false,
        };
        let checked = match check_uses(locus, facts, &names) {
            Err(e) => Err(e),
            Ok(()) => match check_target(&r.target) {
                Err(e) => Err(e),
                Ok(()) => if !shape_ok {
                    let mut m = text(locus.as_str());
                    m.append(": Far action must be un-targeted Look, Move, or Investigate");
                    Err(IrError::InvalidMindProgram(m))
                } else {
                    check_safes(locus, facts, &names)
                },
            },
        };
        match checked {
            Err(e) => {
                proof {
                    lemma_rows_stops(facts@, rows@, (i + 1) as nat, rows@.len());
                }
                return Err(e);
            },
            Ok(()) => {},
        }
        i = i + 1;
    }
    Ok(())
}

fn far_inputs(rows: &Vec<FarRule>) -> (r: Vec<Name>)
    ensures
        r@ == far_names(rows@, rows@.len()),
{
    let mut out: Vec<Name> = Vec::new();
    let mut i: usize = 0;
    while i < rows.len()
        invariant
            i <= rows@.len(),
            out@ == far_names(rows@, i as nat),
        decreases rows@.len() - i,
    {
        let names = join(&rows[i].requires, &rows[i].effects);
        let mut j: usize = 0;
        let ghost base = out@;
        while j < names.len()
            invariant
                j <= names@.len(),
                out@ == base + names@.take(j as int),
            decreases names@.len() - j,
        {
            out.push(names[j].dup());
            j = j + 1;
            assert(out@ =~= base + names@.take(j as int));
        }
        assert(names@.take(names@.len() as int) =~= names@);
        i = i + 1;
    }
    out
}

fn name_seen(s: &Vec<Name>, k: usize) -> (r: bool)
    requires
        k < s@.len(),
    ensures
        r == exists|j: int| 0 <= j < k && (#[trigger] s@[j])@ == s@[k as int]@,
{
    let mut j: usize = 0;
    while j < k
        invariant
            j <= k < s@.len(),
            forall|q: int| 0 <= q < j ==> (#[trigger] s@[q])@ != s@[k as int]@,
        decreases k - j,
    {
        if same_name(&s[j], &s[k]) {
            assert(s@[j as int]@ == s@[k as int]@);
            return true;
        }
        j = j + 1;
    }
    false
}

fn distinct_count(s: &Vec<Name>) -> (r: usize)
    ensures
        r == distinct(s@, s@.len()),
{
    let mut count: usize = 0;
    let mut k: usize = 0;
    while k < s.len()
        invariant
            k <= s@.len(),
            count == distinct(s@, k as nat),
            count <= k,
        decreases s@.len() - k,
    {
        let seen = name_seen(s, k);
        if !seen {
            count = count + 1;
        }
        k = k + 1;
    }
    count
}

impl MindProgram {
    /// Validate the caps, local references and the Far boundary of the
    /// program of `locus`; the first fault in checking order is reported.
    pub fn check(&self, locus: &Name) -> (res: Result<(), IrError>)
        ensures
            match program_fault(*self) {
                None => res is Ok,
                Some(f) => res matches Err(e) && mind_err(e, locus@, f),
            },
    {
        if self.facts.len() > MAX_MIND_FACTS {
            return Err(cap_error(locus, "facts", self.facts.len(), MAX_MIND_FACTS));
        }
        if self.operators.len() > MAX_MIND_OPERATORS {
            return Err(cap_error(locus, "operators", self.operators.len(), MAX_MIND_OPERATORS));
        }
        if self.goals.len() > MAX_MIND_GOALS {
            return Err(cap_error(locus, "goals", self.goals.len(), MAX_MIND_GOALS));
        }
        match &self.beat {
            Some(n) => {
                if n.check().is_err() {
                    return Err(IrError::EmptyName);
                }
            },
            None => {},
        }
        check_facts(locus, &self.facts)?;
        check_ops(locus, &self.facts, &self.operators)?;
        check_goals(locus, &self.facts, &self.goals)?;
        check_rows(locus, &self.facts, &self.far)?;
        let all = far_inputs(&self.far);
        let n = distinct_count(&all);
        if n > MAX_FAR_INPUTS {
            return Err(cap_error(locus, "far inputs", n, MAX_FAR_INPUTS));
        }
        Ok(())
    }
}

impl MindSpec {
    /// Validate the caps, local references, and the conservative Far
    /// boundary; the first fault in checking order is reported.
    pub fn validate(&self) -> (res: Result<(), IrError>)
        ensures
            match spec_fault(*self) {
                None => res is Ok,
                Some(f) => res matches Err(e) && mind_err(e, self.locus@, f),
            },
    {
        if self.locus.check().is_err() {
            return Err(IrError::EmptyName);
        }
        self.program.check(&self.locus)
    }
}

} // verus!

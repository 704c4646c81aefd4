//! Intent parse and validation failures.
use vstd::prelude::*;
use vstd::string::StringExecFns;

use crate::failure::{decimal, spec_decimal, text, wrap};

verus! {

/// IR parse / validate error. Cook maps these to cook-fail.
#[derive(Clone, PartialEq, Eq, Debug)]
pub enum IrError {
    /// RON parse failed.
    Parse(String),
    /// RON serialize failed.
    Ser(String),
    /// A name (or equivalent string id) was empty.
    EmptyName,
    /// `ExistsRelated` / `CountRelated` nested inside another quantifier.
    NestedQuantifier,
    /// `cap_steps` or `cap_ticks` was zero.
    InvalidRiteCap,
    /// Analog phase outside `0..=1000`.
    InvalidPhase(u16),
    /// Duplicate entry in `Agency.claimed`.
    DuplicateChannel,
    /// Module `version` was zero.
    InvalidModuleVersion,
    /// Module import graph contains a cycle. Names are sorted.
    ImportCycle(Vec<String>),
    /// Locked or imported content hash does not match module bytes.
    HashDrift {
        /// Module id.
        id: String,
        /// Hash recorded in the lock or import.
        expected: String,
        /// Hash of the loaded module.
        actual: String,
    },
    /// Two modules share an id.
    DuplicateModule(String),
    /// An import or lock entry names a module that is not loaded.
    MissingModule(String),
    /// A live object reuses a tombstoned name.
    TombstoneReuse(String),
    /// An alias collides with a live primary name.
    AliasCollision(String),
    /// A module parameter has no default and was not bound.
    UnboundParameter(String),
    /// Two objects were assigned the same anchor.
    DuplicateAnchor(String),
    /// A named live object has no immutable anchor.
    MissingAnchor(String),
    /// Two live objects in the flattened project share a name.
    DuplicateObjectName(String),
    /// An export names an object the module does not define.
    ExportUnknown(String),
    /// A parameter default does not match its declared type.
    ParameterTypeMismatch(String),
    /// A pattern instance is still present at flatten time.
    UnexpandedPattern(String),
    /// A feel contract field is out of bounds.
    InvalidFeel {
        /// Field path (`input_buffer_ticks`).
        field: String,
        /// Why it failed.
        reason: String,
    },
    /// A presentation contract field is out of bounds.
    InvalidPresent {
        /// Field path.
        field: String,
        /// Why it failed.
        reason: String,
    },
    /// An accessibility profile field is out of bounds.
    InvalidA11y {
        /// Field path.
        field: String,
        /// Why it failed.
        reason: String,
    },
    /// A compiled Mind program exceeds a content-independent cap.
    MindProgramCap {
        /// Actor anchor/name.
        locus: String,
        /// Capped table.
        resource: String,
        /// Authored count.
        actual: usize,
        /// Hard cap.
        cap: usize,
    },
    /// A compiled Mind program contains an invalid local reference.
    InvalidMindProgram(String),
    /// A Far table reads or affects a protected fact.
    UnsafeFarFact {
        /// Actor anchor/name.
        locus: String,
        /// Protected fact id.
        fact: String,
    },
}

/// The strings of `ids` joined by commas.
pub open spec fn join_commas(ids: Seq<Seq<char>>) -> Seq<char>
    decreases ids.len(),
{
    if ids.len() == 0 {
        Seq::empty()
    } else if ids.len() == 1 {
        ids[0]
    } else {
        join_commas(ids.drop_last()) + ","@ + ids.last()
    }
}

/// Views of a vector of strings.
pub open spec fn string_views(v: Seq<String>) -> Seq<Seq<char>> {
    v.map_values(|s: String| s@)
}

fn join_exec(ids: &Vec<String>) -> (r: String)
    ensures
        r@ == join_commas(string_views(ids@)),
{
    let mut out = String::new();
    let mut i: usize = 0;
    while i < ids.len()
        invariant
            0 <= i <= ids@.len(),
            out@ == join_commas(string_views(ids@.take(i as int))),
        decreases ids@.len() - i,
    {
        proof {
            reveal_strlit(",");
            assert(string_views(ids@.take(i as int + 1)).drop_last() =~= string_views(ids@.take(i as int)));
        }
        if i > 0 {
            out.append(",");
        }
        out.append(ids[i].as_str());
        i = i + 1;
    }
    assert(ids@.take(ids@.len() as int) =~= ids@);
    out
}

/// `name(a: b)`.
pub open spec fn pair_text(name: Seq<char>, a: Seq<char>, b: Seq<char>) -> Seq<char> {
    wrap(name, a + ": "@ + b)
}

fn wrap2(name: &str, payload: &str) -> (r: String)
    ensures
        r@ == wrap(name@, payload@),
{
    let mut s = text(name);
    s.append("(");
    s.append(payload);
    s.append(")");
    s
}

fn pair_exec(name: &str, a: &str, b: &str) -> (r: String)
    ensures
        r@ == pair_text(name@, a@, b@),
{
    let mut inner = text(a);
    inner.append(": ");
    inner.append(b);
    wrap2(name, inner.as_str())
}

impl IrError {
    /// Display text of the error.
    pub open spec fn spec_text(&self) -> Seq<char> {
        match self {
            IrError::Parse(s) => wrap("Parse"@, s@),
            IrError::Ser(s) => wrap("Ser"@, s@),
            IrError::EmptyName => "EmptyName"@,
            IrError::NestedQuantifier => "NestedQuantifier"@,
            IrError::InvalidRiteCap => "InvalidRiteCap"@,
            IrError::InvalidPhase(p) => wrap("InvalidPhase"@, spec_decimal(*p as nat)),
            IrError::DuplicateChannel => "DuplicateChannel"@,
            IrError::InvalidModuleVersion => "InvalidModuleVersion"@,
            IrError::ImportCycle(ids) => wrap("ImportCycle"@, join_commas(string_views(ids@))),
            IrError::HashDrift { id, expected, actual } => wrap(
                "HashDrift"@,
                id@ + ": expected "@ + expected@ + ", got "@ + actual@,
            ),
            IrError::DuplicateModule(s) => wrap("DuplicateModule"@, s@),
            IrError::MissingModule(s) => wrap("MissingModule"@, s@),
            IrError::TombstoneReuse(s) => wrap("TombstoneReuse"@, s@),
            IrError::AliasCollision(s) => wrap("AliasCollision"@, s@),
            IrError::UnboundParameter(s) => wrap("UnboundParameter"@, s@),
            IrError::DuplicateAnchor(s) => wrap("DuplicateAnchor"@, s@),
            IrError::MissingAnchor(s) => wrap("MissingAnchor"@, s@),
            IrError::DuplicateObjectName(s) => wrap("DuplicateObjectName"@, s@),
            IrError::ExportUnknown(s) => wrap("ExportUnknown"@, s@),
            IrError::ParameterTypeMismatch(s) => wrap("ParameterTypeMismatch"@, s@),
            IrError::UnexpandedPattern(s) => wrap("UnexpandedPattern"@, s@),
            IrError::InvalidFeel { field, reason } => pair_text("InvalidFeel"@, field@, reason@),
            IrError::InvalidPresent { field, reason } => pair_text("InvalidPresent"@, field@, reason@),
            IrError::InvalidA11y { field, reason } => pair_text("InvalidA11y"@, field@, reason@),
            IrError::MindProgramCap { locus, resource, actual, cap } => wrap(
                "MindProgramCap"@,
                locus@ + "."@ + resource@ + ": "@ + spec_decimal(*actual as nat) + " > "@
                    + spec_decimal(*cap as nat),
            ),
            IrError::InvalidMindProgram(s) => wrap("InvalidMindProgram"@, s@),
            IrError::UnsafeFarFact { locus, fact } => wrap("UnsafeFarFact"@, locus@ + "."@ + fact@),
        }
    }

    /// Display text of the error.
    pub fn to_text(&self) -> (r: String)
        ensures
            r@ == self.spec_text(),
    {
        match self {
            IrError::Parse(s) => wrap2("Parse", s.as_str()),
            IrError::Ser(s) => wrap2("Ser", s.as_str()),
            IrError::EmptyName => text("EmptyName"),
            IrError::NestedQuantifier => text("NestedQuantifier"),
            IrError::InvalidRiteCap => text("InvalidRiteCap"),
            IrError::InvalidPhase(p) => {
                let d = decimal(*p as u64);
                wrap2("InvalidPhase", d.as_str())
            },
            IrError::DuplicateChannel => text("DuplicateChannel"),
            IrError::InvalidModuleVersion => text("InvalidModuleVersion"),
            IrError::ImportCycle(ids) => {
                let j = join_exec(ids);
                wrap2("ImportCycle", j.as_str())
            },
            IrError::HashDrift { id, expected, actual } => {
                let mut inner = text(id.as_str());
                inner.append(": expected ");
                inner.append(expected.as_str());
                inner.append(", got ");
                inner.append(actual.as_str());
                wrap2("HashDrift", inner.as_str())
            },
            IrError::DuplicateModule(s) => wrap2("DuplicateModule", s.as_str()),
            IrError::MissingModule(s) => wrap2("MissingModule", s.as_str()),
            IrError::TombstoneReuse(s) => wrap2("TombstoneReuse", s.as_str()),
            IrError::AliasCollision(s) => wrap2("AliasCollision", s.as_str()),
            IrError::UnboundParameter(s) => wrap2("UnboundParameter", s.as_str()),
            IrError::DuplicateAnchor(s) => wrap2("DuplicateAnchor", s.as_str()),
            IrError::MissingAnchor(s) => wrap2("MissingAnchor", s.as_str()),
            IrError::DuplicateObjectName(s) => wrap2("DuplicateObjectName", s.as_str()),
            IrError::ExportUnknown(s) => wrap2("ExportUnknown", s.as_str()),
            IrError::ParameterTypeMismatch(s) => wrap2("ParameterTypeMismatch", s.as_str()),
            IrError::UnexpandedPattern(s) => wrap2("UnexpandedPattern", s.as_str()),
            IrError::InvalidFeel { field, reason } => pair_exec(
                "InvalidFeel",
                field.as_str(),
                reason.as_str(),
            ),
            IrError::InvalidPresent { field, reason } => pair_exec(
                "InvalidPresent",
                field.as_str(),
                reason.as_str(),
            ),
            IrError::InvalidA11y { field, reason } => pair_exec(
                "InvalidA11y",
                field.as_str(),
                reason.as_str(),
            ),
            IrError::MindProgramCap { locus, resource, actual, cap } => {
                let mut inner = text(locus.as_str());
                inner.append(".");
                inner.append(resource.as_str());
                inner.append(": ");
                let a = decimal(*actual as u64);
                inner.append(a.as_str());
                inner.append(" > ");
                let c = decimal(*cap as u64);
                inner.append(c.as_str());
                wrap2("MindProgramCap", inner.as_str())
            },
            IrError::InvalidMindProgram(s) => wrap2("InvalidMindProgram", s.as_str()),
            IrError::UnsafeFarFact { locus, fact } => {
                let mut inner = text(locus.as_str());
                inner.append(".");
                inner.append(fact.as_str());
                wrap2("UnsafeFarFact", inner.as_str())
            },
        }
    }
}

} // verus!

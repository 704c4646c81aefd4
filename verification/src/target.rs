//! Intent targets and predicate slots.
use vstd::prelude::*;

use crate::ir_error::IrError;
use crate::names::Name;
use crate::units::Sigil;

verus! {

/// Who or what an intent is aimed at.
#[derive(Clone, PartialEq, Eq, Hash, Debug)]
pub enum IntentTarget {
    /// No target (look, move).
    NoTarget,
    /// Runtime / cooked packed id.
    Sigil(Sigil),
    /// Authoring and recorded scripts. Cook binds to a sigil.
    Name(Name),
}

impl Default for IntentTarget {
    fn default() -> (r: IntentTarget)
        ensures
            r is NoTarget,
    {
        IntentTarget::NoTarget
    }
}

impl IntentTarget {
    /// A named target needs a non-empty name.
    pub fn check(&self) -> (r: Result<(), IrError>)
        ensures
            (self matches IntentTarget::Name(n) && n@.len() == 0) ==> r == Err::<(), IrError>(IrError::EmptyName),
            !(self matches IntentTarget::Name(n) && n@.len() == 0) ==> r is Ok,
    {
        match self {
            IntentTarget::NoTarget => Ok(()),
            IntentTarget::Sigil(_) => Ok(()),
            IntentTarget::Name(n) => n.check(),
        }
    }
}

/// Predicate slot. `This` is the acting locus of the current proposal.
#[derive(Clone, PartialEq, Eq, Hash, Debug)]
pub enum Slot {
    /// Acting locus.
    This,
    /// Intent target.
    Target,
    /// Bound by a related-quantifier.
    Other,
    /// Cook-time name pinned to a seed sigil.
    Name(Name),
}

impl Slot {
    /// A named slot needs a non-empty name.
    pub fn check(&self) -> (r: Result<(), IrError>)
        ensures
            (self matches Slot::Name(n) && n@.len() == 0) ==> r == Err::<(), IrError>(IrError::EmptyName),
            !(self matches Slot::Name(n) && n@.len() == 0) ==> r is Ok,
    {
        match self {
            Slot::This => Ok(()),
            Slot::Target => Ok(()),
            Slot::Other => Ok(()),
            Slot::Name(n) => n.check(),
        }
    }
}

} // verus!

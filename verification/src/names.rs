//! Authoring identifiers and gameplay verbs.
use vstd::prelude::*;
use vstd::string::{StrSliceExecFns, StringExecFns};

use crate::ir_error::IrError;

verus! {

/// Stable authoring id. Empty ids are refused by [`Name::check`].
#[derive(Clone, PartialEq, Eq, PartialOrd, Ord, Hash, Debug, Default)]
pub struct Name(String);

impl View for Name {
    type V = Seq<char>;

    closed spec fn view(&self) -> Seq<char> {
        self.0@
    }
}

impl Name {
    /// An id with the given text; empty text is refused.
    pub fn new(s: &str) -> (r: Result<Name, IrError>)
        ensures
            s@.len() == 0 ==> r == Err::<Name, IrError>(IrError::EmptyName),
            s@.len() > 0 ==> (r matches Ok(n) && n@ == s@),
    {
        let n = Name(String::from_str(s));
        if n.0.as_str().unicode_len() == 0 {
            return Err(IrError::EmptyName);
        }
        Ok(n)
    }

    /// An id with the given text, unchecked.
    pub fn of(s: &str) -> (r: Name)
        ensures
            r@ == s@,
    {
        Name(String::from_str(s))
    }

    /// An identical copy.
    pub(crate) fn dup(&self) -> (r: Name)
        ensures
            r == *self,
    {
        Name(self.0.clone())
    }

    /// The id's text.
    pub fn as_str(&self) -> (r: &str)
        ensures
            r@ == self@,
    {
        self.0.as_str()
    }

    /// Refuse an empty id.
    pub fn check(&self) -> (r: Result<(), IrError>)
        ensures
            self@.len() == 0 ==> r == Err::<(), IrError>(IrError::EmptyName),
            self@.len() > 0 ==> r == Ok::<(), IrError>(()),
    {
        if self.0.as_str().unicode_len() == 0 {
            Err(IrError::EmptyName)
        } else {
            Ok(())
        }
    }
}

impl From<&str> for Name {
    fn from(s: &str) -> (r: Name) {
        Name::of(s)
    }
}

impl vstd::std_specs::convert::FromSpecImpl<&str> for Name {
    open spec fn obeys_from_spec() -> bool {
        false
    }

    open spec fn from_spec(v: &str) -> Name {
        arbitrary()
    }
}

/// Gameplay verb carried by an intent.
#[derive(Copy, Clone, PartialEq, Eq, Structural, PartialOrd, Ord, Hash, Debug)]
pub enum Verb {
    /// Look around.
    Look,
    /// Move.
    Move,
    /// Use the target.
    Use,
    /// Open the target.
    Open,
    /// Carry the target.
    Carry,
    /// Drop what is carried.
    Drop,
    /// Talk.
    Talk,
    /// Bend time.
    Time,
    /// Pay.
    Pay,
    /// Fire.
    Fire,
    /// Reload.
    Reload,
    /// Steer a vehicle.
    Steer,
    /// Investigate.
    Investigate,
}

} // verus!

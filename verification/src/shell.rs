//! The visitor shell builder: the carrier construct to which the
//! protocol's callback methods attach.
//!
//! A type with no generic parameters gets a singleton marker carrier. A
//! generic type's carrier must mention every parameter to satisfy the host
//! type system's rule that each parameter be used, so it carries one
//! non-owning phantom marker per parameter, lifetimes and type parameters
//! alike, in declaration order; the markers are filled trivially at the
//! instantiation site.

use vstd::prelude::*;

use crate::schema::{bytes_clone, GenericParam};

verus! {

/// The carrier: a singleton marker when `phantoms` is empty, otherwise a
/// construct parameterized by one usage witness per generic parameter.
#[derive(Clone, Debug, PartialEq, Eq)]
pub struct VisitorShell {
    pub phantoms: Vec<Vec<u8>>,
}

/// The shell carries exactly one marker per parameter, by name and in
/// order.
pub open spec fn shell_matches(sh: VisitorShell, generics: Seq<GenericParam>) -> bool {
    sh.phantoms@.len() == generics.len() && forall|i: int|
        0 <= i < generics.len() ==> #[trigger] sh.phantoms@[i]@ == generics[i].name@
}

impl VisitorShell {
    /// A shell with no parameters is a plain singleton marker value.
    pub fn is_marker(&self) -> (r: bool)
        ensures
            r == (self.phantoms@.len() == 0),
    {
        self.phantoms.len() == 0
    }
}

/// Build the carrier for one parameter list.
pub fn deserialize_visitor(generics: &Vec<GenericParam>) -> (sh: VisitorShell)
    ensures
        shell_matches(sh, generics@),
{
    let mut phantoms: Vec<Vec<u8>> = Vec::new();
    let mut i: usize = 0;
    while i < generics.len()
        invariant
            i <= generics@.len(),
            phantoms@.len() == i,
            forall|k: int| 0 <= k < i ==> #[trigger] phantoms@[k]@ == generics@[k].name@,
        decreases generics@.len() - i,
    {
        phantoms.push(bytes_clone(&generics[i].name));
        i = i + 1;
    }
    VisitorShell { phantoms }
}

} // verus!

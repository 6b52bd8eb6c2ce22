//! Parent (precursor peptide) records.  A parent owns zero or more fragment
//! entries through the entries' parent-position back-reference.

use crate::sort::{IndexSortable, MassType, ParentID};
use vstd::prelude::*;

verus! {

/// A precursor record: a mass, an identity, a sequence string, and two
/// reserved numeric fields whose meaning is left to the caller (for example a
/// retention time or a charge).
#[derive(Debug, Clone, PartialEq, Eq, Hash)]
pub struct Peptide {
    pub mass: MassType,
    pub id: ParentID,
    pub aux_a: u32,
    pub aux_b: u32,
    pub sequence: String,
}

impl Peptide {
    /// Builds a parent record from its attributes.
    pub fn new(mass: MassType, id: ParentID, aux_a: u32, aux_b: u32, sequence: String) -> (r:
        Self)
        ensures
            r.mass == mass,
            r.id == id,
            r.aux_a == aux_a,
            r.aux_b == aux_b,
            r.sequence@ == sequence@,
    {
        Self { mass, id, aux_a, aux_b, sequence }
    }
}

impl IndexSortable for Peptide {
    open spec fn mass_spec(&self) -> MassType {
        self.mass
    }

    open spec fn parent_id_spec(&self) -> ParentID {
        self.id
    }

    fn mass(&self) -> (r: MassType) {
        self.mass
    }

    fn parent_id(&self) -> (r: ParentID) {
        self.id
    }
}

} // verus!

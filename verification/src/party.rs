//! Identity of a negotiation counterparty.

use vstd::prelude::*;

verus! {

/// Opaque identifier of a negotiation counterparty.
///
/// The host hands identities in as strings; the library never inspects them
/// beyond equality, so the model of a party is the character sequence of its
/// name.
pub struct PartyId {
    pub name: String,
}

impl View for PartyId {
    type V = Seq<char>;

    open spec fn view(&self) -> Seq<char> {
        self.name@
    }
}

impl PartyId {
    pub fn new(name: String) -> (r: PartyId)
        ensures
            r@ == name@,
    {
        PartyId { name }
    }

    /// A fresh value carrying the same identity.
    pub fn duplicate(&self) -> (r: PartyId)
        ensures
            r@ == self@,
    {
        PartyId { name: self.name.clone() }
    }

    /// Whether two identifiers name the same party.
    pub fn same_party(&self, other: &PartyId) -> (r: bool)
        ensures
            r == (self@ == other@),
    {
        self.name == other.name
    }
}

} // verus!

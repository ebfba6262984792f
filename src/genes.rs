use vstd::prelude::*;
use crate::activeable::Activeable;
use crate::node::{Node, Part};
use crate::saveable::{Saveable, SaveableData};

verus! {

/// A gene (part): identifier, observed evidence, checkpointed activity, and
/// the indices of the terms it belongs to.
#[derive(Debug)]
pub struct Gene<Id, Gd> {
    id: Id,
    data: Gd,
    activity: SaveableData<bool>,
    terms: Vec<usize>,
}

impl<Id, Gd> Gene<Id, Gd> {
    /// The checkpointed activity.
    pub closed spec fn activity_spec(&self) -> SaveableData<bool> {
        self.activity
    }

    /// Indices of the terms this gene belongs to.
    pub closed spec fn term_indices(&self) -> Seq<usize> {
        self.terms@
    }

    pub closed spec fn id_of(&self) -> Id {
        self.id
    }

    pub closed spec fn data_of(&self) -> Gd {
        self.data
    }

    /// Same identifier, evidence and memberships; the activity may differ.
    pub open spec fn same_record(&self, other: &Self) -> bool {
        &&& self.id_of() == other.id_of()
        &&& self.data_of() == other.data_of()
        &&& self.term_indices() == other.term_indices()
    }

    /// A new gene, inactive, with nothing committed but inactivity.
    pub fn new(id: Id, data: Gd, terms: Vec<usize>) -> (r: Self)
        ensures
            r.id_of() == id,
            r.data_of() == data,
            r.term_indices() == terms@,
            r.activity_spec() == (SaveableData { current: false, saved: false }),
    {
        Gene { id, data, activity: SaveableData::new(false, false), terms }
    }

    pub fn terms(&self) -> (r: &Vec<usize>)
        ensures
            r@ == self.term_indices(),
    {
        &self.terms
    }

    /// Records membership in one more term.
    pub fn add_term(&mut self, term: usize)
        ensures
            final(self).term_indices() == old(self).term_indices().push(term),
            final(self).id_of() == old(self).id_of(),
            final(self).data_of() == old(self).data_of(),
            final(self).activity_spec() == old(self).activity_spec(),
    {
        self.terms.push(term);
    }

    /// Replaces the whole checkpoint.
    pub fn set_checkpoint(&mut self, d: SaveableData<bool>)
        ensures
            final(self).activity_spec() == d,
            final(self).same_record(old(self)),
    {
        self.activity = d;
    }

    pub fn checkpoint(&self) -> (r: SaveableData<bool>)
        ensures
            r == self.activity_spec(),
    {
        self.activity
    }
}

impl<Id, Gd> Node for Gene<Id, Gd> {
    type Id = Id;
    type Data = Gd;

    open spec fn id_spec(&self) -> Id {
        self.id_of()
    }

    open spec fn data_spec(&self) -> Gd {
        self.data_of()
    }

    open spec fn neighbor_indices(&self) -> Seq<usize> {
        self.term_indices()
    }

    fn id(&self) -> (r: &Id) {
        &self.id
    }

    fn data(&self) -> (r: &Gd) {
        &self.data
    }

    fn idx_neighbors(&self) -> (r: &Vec<usize>) {
        &self.terms
    }
}

impl<Id, Gd> Part for Gene<Id, Gd> {

}

impl<Id, Gd> Saveable for Gene<Id, Gd> {
    type Output = bool;

    open spec fn current_spec(&self) -> bool {
        self.activity_spec().current
    }

    open spec fn saved_spec(&self) -> bool {
        self.activity_spec().saved
    }

    fn save(&mut self)
        ensures
            final(self).activity_spec() == old(self).activity_spec().committed(),
            final(self).same_record(old(self)),
    {
        self.activity.save();
    }

    fn restore(&mut self)
        ensures
            final(self).activity_spec() == old(self).activity_spec().restored(),
            final(self).same_record(old(self)),
    {
        self.activity.restore();
    }

    fn current(&self) -> (r: bool) {
        self.activity.current
    }

    fn saved(&self) -> (r: bool) {
        self.activity.saved
    }
}

impl<Id, Gd> Activeable for Gene<Id, Gd> {
    open spec fn active_spec(&self) -> bool {
        self.activity_spec().current
    }

    fn is_active(&self) -> (r: bool) {
        self.activity.current
    }

    /// Commits the previous activity, then sets the live one to `b`.
    fn set_activity(&mut self, b: bool)
        ensures
            final(self).activity_spec() == old(self).activity_spec().with_activity(b),
            final(self).same_record(old(self)),
    {
        self.activity.set_activity(b);
    }
}

} // verus!

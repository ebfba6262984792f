use vstd::prelude::*;
use crate::activeable::Activeable;
use crate::node::{Node, Whole};
use crate::saveable::{Saveable, SaveableData};

verus! {

/// A term (whole, gene set): identifier, payload, checkpointed activity, and
/// the indices of its member genes.
#[derive(Debug)]
pub struct Term<Id, Td> {
    id: Id,
    data: Td,
    activity: SaveableData<bool>,
    genes: Vec<usize>,
}

impl<Id, Td> Term<Id, Td> {
    /// The checkpointed activity.
    pub closed spec fn activity_spec(&self) -> SaveableData<bool> {
        self.activity
    }

    /// Indices of the member genes.
    pub closed spec fn gene_indices(&self) -> Seq<usize> {
        self.genes@
    }

    pub closed spec fn id_of(&self) -> Id {
        self.id
    }

    pub closed spec fn data_of(&self) -> Td {
        self.data
    }

    /// Same identifier, payload and members; the activity may differ.
    pub open spec fn same_record(&self, other: &Self) -> bool {
        &&& self.id_of() == other.id_of()
        &&& self.data_of() == other.data_of()
        &&& self.gene_indices() == other.gene_indices()
    }

    /// A new term, inactive, with nothing committed but inactivity.
    pub fn new(id: Id, data: Td, genes: Vec<usize>) -> (r: Self)
        ensures
            r.id_of() == id,
            r.data_of() == data,
            r.gene_indices() == genes@,
            r.activity_spec() == (SaveableData { current: false, saved: false }),
    {
        Term { id, data, activity: SaveableData::new(false, false), genes }
    }

    pub fn genes(&self) -> (r: &Vec<usize>)
        ensures
            r@ == self.gene_indices(),
    {
        &self.genes
    }

    /// Records one more member gene.
    pub fn add_gene(&mut self, gene: usize)
        ensures
            final(self).gene_indices() == old(self).gene_indices().push(gene),
            final(self).id_of() == old(self).id_of(),
            final(self).data_of() == old(self).data_of(),
            final(self).activity_spec() == old(self).activity_spec(),
    {
        self.genes.push(gene);
    }

    /// Replaces the whole checkpoint.
    pub fn set_checkpoint(&mut self, d: SaveableData<bool>)
        ensures
            final(self).activity_spec() == d,
            final(self).same_record(old(self)),
    {
        self.activity = d;
    }

    pub fn checkpoint(&self) -> (r: SaveableData<bool>)
        ensures
            r == self.activity_spec(),
    {
        self.activity
    }
}

impl<Id, Td> Node for Term<Id, Td> {
    type Id = Id;
    type Data = Td;

    open spec fn id_spec(&self) -> Id {
        self.id_of()
    }

    open spec fn data_spec(&self) -> Td {
        self.data_of()
    }

    open spec fn neighbor_indices(&self) -> Seq<usize> {
        self.gene_indices()
    }

    fn id(&self) -> (r: &Id) {
        &self.id
    }

    fn data(&self) -> (r: &Td) {
        &self.data
    }

    fn idx_neighbors(&self) -> (r: &Vec<usize>) {
        &self.genes
    }
}

impl<Id, Td> Whole for Term<Id, Td> {

}

impl<Id, Td> Saveable for Term<Id, Td> {
    type Output = bool;

    open spec fn current_spec(&self) -> bool {
        self.activity_spec().current
    }

    open spec fn saved_spec(&self) -> bool {
        self.activity_spec().saved
    }

    fn save(&mut self)
        ensures
            final(self).activity_spec() == old(self).activity_spec().committed(),
            final(self).same_record(old(self)),
    {
        self.activity.save();
    }

    fn restore(&mut self)
        ensures
            final(self).activity_spec() == old(self).activity_spec().restored(),
            final(self).same_record(old(self)),
    {
        self.activity.restore();
    }

    fn current(&self) -> (r: bool) {
        self.activity.current
    }

    fn saved(&self) -> (r: bool) {
        self.activity.saved
    }
}

impl<Id, Td> Activeable for Term<Id, Td> {
    open spec fn active_spec(&self) -> bool {
        self.activity_spec().current
    }

    fn is_active(&self) -> (r: bool) {
        self.activity.current
    }

    /// Commits the previous activity, then sets the live one to `b`.
    fn set_activity(&mut self, b: bool)
        ensures
            final(self).activity_spec() == old(self).activity_spec().with_activity(b),
            final(self).same_record(old(self)),
    {
        self.activity.set_activity(b);
    }
}

} // verus!

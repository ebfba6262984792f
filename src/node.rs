use vstd::prelude::*;

verus! {

/// Walks the nodes of `all_nodes` named by a list of indices, in list order.
pub struct NodeIterator<'a, T> {
    indices: &'a Vec<usize>,
    all_nodes: &'a Vec<T>,
    pos: usize,
}

impl<'a, T> NodeIterator<'a, T> {
    /// The indices still to be visited.
    pub closed spec fn remaining(&self) -> Seq<usize> {
        self.indices@.skip(self.pos as int)
    }

    /// The nodes the indices point into.
    pub closed spec fn targets(&self) -> Seq<T> {
        self.all_nodes@
    }

    /// Every index still to be visited points into the targets.
    pub closed spec fn valid(&self) -> bool {
        &&& self.pos <= self.indices@.len()
        &&& forall|k: int|
            0 <= k < self.indices@.len() ==> #[trigger] self.indices@[k] < self.all_nodes@.len()
    }

    fn new(indices: &'a Vec<usize>, all_nodes: &'a Vec<T>) -> (r: Self)
        requires
            forall|k: int| 0 <= k < indices@.len() ==> #[trigger] indices@[k] < all_nodes@.len(),
        ensures
            r.valid(),
            r.remaining() == indices@,
            r.targets() == all_nodes@,
    {
        let r = NodeIterator { indices, all_nodes, pos: 0 };
        assert(r.indices@.skip(0) =~= indices@);
        r
    }

    /// Hands out the node at the next index, or `None` once all are visited.
    pub fn next(&mut self) -> (r: Option<&'a T>)
        requires
            old(self).valid(),
        ensures
            final(self).valid(),
            final(self).targets() == old(self).targets(),
            old(self).remaining().len() == 0 ==> r is None && final(self).remaining() == old(
                self,
            ).remaining(),
            old(self).remaining().len() > 0 ==> {
                &&& r is Some
                &&& *r->0 == old(self).targets()[old(self).remaining()[0] as int]
                &&& final(self).remaining() == old(self).remaining().drop_first()
            },
    {
        if self.pos < self.indices.len() {
            let idx = self.indices[self.pos];
            proof {
                assert(self.remaining()[0] == idx);
            }
            self.pos = self.pos + 1;
            proof {
                assert(self.remaining() =~= old(self).remaining().drop_first());
            }
            Some(&self.all_nodes[idx])
        } else {
            None
        }
    }
}

/// A node of the bipartite graph: an identifier, a payload, and the indices
/// of its neighbours in the other population.
pub trait Node {
    type Id;
    type Data;

    spec fn id_spec(&self) -> Self::Id;

    spec fn data_spec(&self) -> Self::Data;

    /// Indices of the neighbouring nodes, in insertion order.
    spec fn neighbor_indices(&self) -> Seq<usize>;

    fn id(&self) -> (r: &Self::Id)
        ensures
            *r == self.id_spec(),
    ;

    fn data(&self) -> (r: &Self::Data)
        ensures
            *r == self.data_spec(),
    ;

    fn idx_neighbors(&self) -> (r: &Vec<usize>)
        ensures
            r@ == self.neighbor_indices(),
    ;

    /// Walks the neighbours of this node within `all_nodes`.
    fn iter_neighbors<'a, T>(&'a self, all_nodes: &'a Vec<T>) -> (r: NodeIterator<'a, T>)
        requires
            forall|k: int|
                0 <= k < self.neighbor_indices().len() ==> #[trigger] self.neighbor_indices()[k]
                    < all_nodes@.len(),
        ensures
            r.valid(),
            r.remaining() == self.neighbor_indices(),
            r.targets() == all_nodes@,
    {
        NodeIterator::new(self.idx_neighbors(), all_nodes)
    }
}

/// A part (gene): its neighbours are wholes.
pub trait Part: Node {
    /// Walks the wholes this part belongs to.
    fn iter_wholes<'a, T>(&'a self, all_nodes: &'a Vec<T>) -> (r: NodeIterator<'a, T>)
        requires
            forall|k: int|
                0 <= k < self.neighbor_indices().len() ==> #[trigger] self.neighbor_indices()[k]
                    < all_nodes@.len(),
        ensures
            r.valid(),
            r.remaining() == self.neighbor_indices(),
            r.targets() == all_nodes@,
    {
        self.iter_neighbors(all_nodes)
    }
}

/// A whole (term, gene set): its neighbours are parts.
pub trait Whole: Node {
    /// Walks the parts that belong to this whole.
    fn iter_parts<'a, T>(&'a self, all_nodes: &'a Vec<T>) -> (r: NodeIterator<'a, T>)
        requires
            forall|k: int|
                0 <= k < self.neighbor_indices().len() ==> #[trigger] self.neighbor_indices()[k]
                    < all_nodes@.len(),
        ensures
            r.valid(),
            r.remaining() == self.neighbor_indices(),
            r.targets() == all_nodes@,
    {
        self.iter_neighbors(all_nodes)
    }
}

} // verus!

verus! {

/// The two node populations of an enrichment model, held in index-stable
/// arenas.
pub trait GeneSet {
    type PartNode;
    type WholeNode;

    spec fn parts_spec(&self) -> Seq<Self::PartNode>;

    spec fn wholes_spec(&self) -> Seq<Self::WholeNode>;

    fn parts(&self) -> (r: &Vec<Self::PartNode>)
        ensures
            r@ == self.parts_spec(),
    ;

    fn wholes(&self) -> (r: &Vec<Self::WholeNode>)
        ensures
            r@ == self.wholes_spec(),
    ;
}

} // verus!

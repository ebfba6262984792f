use vstd::prelude::*;
use crate::genes::Gene;
use crate::activeable::Activeable;
use crate::node::{GeneSet, Node};
use crate::saveable::Saveable;
use crate::saveable::SaveableData;
use crate::terms::Term;

verus! {

/// Why a graph could not be built.
#[derive(Clone, Copy, Debug, PartialEq, Eq, Structural)]
pub enum GraphError {
    /// An edge or a membership list names a node index past its population.
    IndexOutOfRange,
    /// A gene lists a term that does not list the gene, or the reverse.
    AsymmetricMembership,
}

/// The member genes of term `t` given by an incidence list, in list order.
pub open spec fn members_of_term(adj: Seq<(usize, usize)>, t: int) -> Seq<usize>
    decreases adj.len(),
{
    if adj.len() == 0 {
        Seq::empty()
    } else {
        let rest = members_of_term(adj.drop_last(), t);
        if adj.last().0 == t {
            rest.push(adj.last().1)
        } else {
            rest
        }
    }
}

/// The terms of gene `g` given by an incidence list, in list order.
pub open spec fn terms_of_gene(adj: Seq<(usize, usize)>, g: int) -> Seq<usize>
    decreases adj.len(),
{
    if adj.len() == 0 {
        Seq::empty()
    } else {
        let rest = terms_of_gene(adj.drop_last(), g);
        if adj.last().1 == g {
            rest.push(adj.last().0)
        } else {
            rest
        }
    }
}

/// Every edge `(term, gene)` of the list names an existing term and gene.
pub open spec fn edges_in_range(adj: Seq<(usize, usize)>, n_genes: int, n_terms: int) -> bool {
    forall|k: int| 0 <= k < adj.len() ==> #[trigger] adj[k].0 < n_terms && adj[k].1 < n_genes
}

/// Gene `g` is listed by term `t` exactly when the pair `(t, g)` is an edge.
proof fn lemma_members_of_term(adj: Seq<(usize, usize)>, t: usize, g: usize)
    ensures
        members_of_term(adj, t as int).contains(g) <==> adj.contains((t, g)),
    decreases adj.len(),
{
    if adj.len() > 0 {
        let init = adj.drop_last();
        lemma_members_of_term(init, t, g);
        assert(adj =~= init.push(adj.last()));
        if init.contains((t, g)) {
            let k = choose|k: int| 0 <= k < init.len() && init[k] == (t, g);
            assert(adj[k] == (t, g));
        }
        if adj.contains((t, g)) && adj.last() != (t, g) {
            let k = choose|k: int| 0 <= k < adj.len() && adj[k] == (t, g);
            assert(init[k] == (t, g));
        }
        let rest = members_of_term(init, t as int);
        if adj.last().0 == t {
            assert(rest.push(adj.last().1).last() == adj.last().1);
            if rest.contains(g) {
                let k = choose|k: int| 0 <= k < rest.len() && rest[k] == g;
                assert(rest.push(adj.last().1)[k] == g);
            }
            if rest.push(adj.last().1).contains(g) {
                let k = choose|k: int|
                    0 <= k < rest.push(adj.last().1).len() && rest.push(adj.last().1)[k] == g;
                if k < rest.len() {
                    assert(rest[k] == g);
                }
            }
        }
    }
}

/// Term `t` is listed by gene `g` exactly when the pair `(t, g)` is an edge.
proof fn lemma_terms_of_gene(adj: Seq<(usize, usize)>, t: usize, g: usize)
    ensures
        terms_of_gene(adj, g as int).contains(t) <==> adj.contains((t, g)),
    decreases adj.len(),
{
    if adj.len() > 0 {
        let init = adj.drop_last();
        lemma_terms_of_gene(init, t, g);
        assert(adj =~= init.push(adj.last()));
        if init.contains((t, g)) {
            let k = choose|k: int| 0 <= k < init.len() && init[k] == (t, g);
            assert(adj[k] == (t, g));
        }
        if adj.contains((t, g)) && adj.last() != (t, g) {
            let k = choose|k: int| 0 <= k < adj.len() && adj[k] == (t, g);
            assert(init[k] == (t, g));
        }
        let rest = terms_of_gene(init, g as int);
        if adj.last().1 == g {
            assert(rest.push(adj.last().0).last() == adj.last().0);
            if rest.contains(t) {
                let k = choose|k: int| 0 <= k < rest.len() && rest[k] == t;
                assert(rest.push(adj.last().0)[k] == t);
            }
            if rest.push(adj.last().0).contains(t) {
                let k = choose|k: int|
                    0 <= k < rest.push(adj.last().0).len() && rest.push(adj.last().0)[k] == t;
                if k < rest.len() {
                    assert(rest[k] == t);
                }
            }
        }
    }
}

/// Every entry of the lists built from an in-range incidence list is in range.
proof fn lemma_incidence_in_range(adj: Seq<(usize, usize)>, n_genes: int, n_terms: int, i: int)
    requires
        edges_in_range(adj, n_genes, n_terms),
    ensures
        forall|k: int|
            0 <= k < members_of_term(adj, i).len() ==> #[trigger] members_of_term(adj, i)[k]
                < n_genes,
        forall|k: int|
            0 <= k < terms_of_gene(adj, i).len() ==> #[trigger] terms_of_gene(adj, i)[k]
                < n_terms,
    decreases adj.len(),
{
    if adj.len() > 0 {
        let init = adj.drop_last();
        assert(edges_in_range(init, n_genes, n_terms)) by {
            assert forall|k: int| 0 <= k < init.len() implies #[trigger] init[k].0 < n_terms
                && init[k].1 < n_genes by {
                assert(init[k] == adj[k]);
            }
        }
        lemma_incidence_in_range(init, n_genes, n_terms, i);
        assert(adj[adj.len() - 1] == adj.last());
        let rest = members_of_term(init, i);
        assert forall|k: int|
            0 <= k < members_of_term(adj, i).len() implies #[trigger] members_of_term(adj, i)[k]
                < n_genes by {
            if adj.last().0 == i && k == rest.len() {
            } else {
                assert(members_of_term(adj, i)[k] == rest[k]);
            }
        }
        let rest = terms_of_gene(init, i);
        assert forall|k: int|
            0 <= k < terms_of_gene(adj, i).len() implies #[trigger] terms_of_gene(adj, i)[k]
                < n_terms by {
            if adj.last().1 == i && k == rest.len() {
            } else {
                assert(terms_of_gene(adj, i)[k] == rest[k]);
            }
        }
    }
}

/// The annotation graph: an arena of genes and an arena of terms, whose
/// membership lists are index lists into the other arena.
///
/// Indices never change once the graph is built; only the activities of the
/// nodes change afterwards.
#[derive(Debug)]
pub struct GeneOntology<Id, Td, Gd> {
    genes: Vec<Gene<Id, Gd>>,
    terms: Vec<Term<Id, Td>>,
}

/// Every membership index of every node names an existing node.
pub open spec fn lists_in_range<Id, Td, Gd>(
    genes: Seq<Gene<Id, Gd>>,
    terms: Seq<Term<Id, Td>>,
) -> bool {
    &&& forall|g: int, k: int|
        0 <= g < genes.len() && 0 <= k < genes[g].term_indices().len()
            ==> #[trigger] genes[g].term_indices()[k] < terms.len()
    &&& forall|t: int, k: int|
        0 <= t < terms.len() && 0 <= k < terms[t].gene_indices().len()
            ==> #[trigger] terms[t].gene_indices()[k] < genes.len()
}

/// Gene `g` lists term `t` exactly when term `t` lists gene `g`.
pub open spec fn mutual_membership<Id, Td, Gd>(
    genes: Seq<Gene<Id, Gd>>,
    terms: Seq<Term<Id, Td>>,
) -> bool {
    forall|g: usize, t: usize|
        g < genes.len() && t < terms.len() ==> (#[trigger] genes[g as int].term_indices().contains(
            t,
        ) <==> #[trigger] terms[t as int].gene_indices().contains(g))
}

/// Whether `x` occurs in `v`.
fn index_listed(v: &Vec<usize>, x: usize) -> (r: bool)
    ensures
        r == v@.contains(x),
{
    let mut i: usize = 0;
    while i < v.len()
        invariant
            i <= v@.len(),
            forall|k: int| 0 <= k < i ==> v@[k] != x,
        decreases v.len() - i,
    {
        if v[i] == x {
            return true;
        }
        i = i + 1;
    }
    false
}

/// Checks the two membership conditions of a graph over given node arenas.
fn check_membership<Id, Td, Gd>(genes: &Vec<Gene<Id, Gd>>, terms: &Vec<Term<Id, Td>>) -> (r: Result<
    (),
    GraphError,
>)
    ensures
        r is Ok <==> lists_in_range(genes@, terms@) && mutual_membership(genes@, terms@),
        r == Err::<(), GraphError>(GraphError::IndexOutOfRange) <==> !lists_in_range(
            genes@,
            terms@,
        ),
{
    let mut g: usize = 0;
    while g < genes.len()
        invariant
            g <= genes@.len(),
            forall|h: int, k: int|
                0 <= h < g && 0 <= k < genes@[h].term_indices().len()
                    ==> #[trigger] genes@[h].term_indices()[k] < terms@.len(),
        decreases genes.len() - g,
    {
        let list = genes[g].terms();
        let mut k: usize = 0;
        while k < list.len()
            invariant
                g < genes@.len(),
                list@ == genes@[g as int].term_indices(),
                k <= list@.len(),
                forall|h: int, j: int|
                    0 <= h < g && 0 <= j < genes@[h].term_indices().len()
                        ==> #[trigger] genes@[h].term_indices()[j] < terms@.len(),
                forall|j: int| 0 <= j < k ==> #[trigger] list@[j] < terms@.len(),
            decreases list.len() - k,
        {
            if list[k] >= terms.len() {
                return Err(GraphError::IndexOutOfRange);
            }
            k = k + 1;
        }
        g = g + 1;
    }
    let mut t: usize = 0;
    while t < terms.len()
        invariant
            t <= terms@.len(),
            forall|h: int, k: int|
                0 <= h < genes@.len() && 0 <= k < genes@[h].term_indices().len()
                    ==> #[trigger] genes@[h].term_indices()[k] < terms@.len(),
            forall|h: int, k: int|
                0 <= h < t && 0 <= k < terms@[h].gene_indices().len()
                    ==> #[trigger] terms@[h].gene_indices()[k] < genes@.len(),
        decreases terms.len() - t,
    {
        let list = terms[t].genes();
        let mut k: usize = 0;
        while k < list.len()
            invariant
                t < terms@.len(),
                list@ == terms@[t as int].gene_indices(),
                k <= list@.len(),
                forall|h: int, j: int|
                    0 <= h < t && 0 <= j < terms@[h].gene_indices().len()
                        ==> #[trigger] terms@[h].gene_indices()[j] < genes@.len(),
                forall|j: int| 0 <= j < k ==> #[trigger] list@[j] < genes@.len(),
            decreases list.len() - k,
        {
            if list[k] >= genes.len() {
                return Err(GraphError::IndexOutOfRange);
            }
            k = k + 1;
        }
        t = t + 1;
    }
    assert(lists_in_range(genes@, terms@));
    // Every listed term lists the gene back.
    let mut g: usize = 0;
    while g < genes.len()
        invariant
            lists_in_range(genes@, terms@),
            g <= genes@.len(),
            forall|h: usize, u: usize|
                h < g && u < terms@.len() && #[trigger] genes@[h as int].term_indices().contains(u)
                    ==> terms@[u as int].gene_indices().contains(h),
        decreases genes.len() - g,
    {
        let list = genes[g].terms();
        let mut k: usize = 0;
        while k < list.len()
            invariant
                lists_in_range(genes@, terms@),
                g < genes@.len(),
                list@ == genes@[g as int].term_indices(),
                k <= list@.len(),
                forall|h: usize, u: usize|
                    h < g && u < terms@.len() && #[trigger] genes@[h as int].term_indices().contains(
                        u,
                    ) ==> terms@[u as int].gene_indices().contains(h),
                forall|j: int|
                    0 <= j < k ==> terms@[#[trigger] list@[j] as int].gene_indices().contains(g),
            decreases list.len() - k,
        {
            let u = list[k];
            assert(u < terms@.len());
            if !index_listed(terms[u].genes(), g) {
                proof {
                    assert(genes@[g as int].term_indices()[k as int] == u);
                    assert(genes@[g as int].term_indices().contains(u));
                }
                return Err(GraphError::AsymmetricMembership);
            }
            k = k + 1;
        }
        proof {
            assert forall|h: usize, u: usize|
                h < g + 1 && u < terms@.len() && #[trigger] genes@[h as int].term_indices().contains(
                    u,
                ) implies terms@[u as int].gene_indices().contains(h) by {
                if h == g {
                    let j = choose|j: int| 0 <= j < list@.len() && list@[j] == u;
                }
            }
        }
        g = g + 1;
    }
    let mut t: usize = 0;
    while t < terms.len()
        invariant
            lists_in_range(genes@, terms@),
            t <= terms@.len(),
            forall|h: usize, u: usize|
                h < genes@.len() && u < terms@.len() && #[trigger] genes@[h as int].term_indices().contains(u)
                    ==> terms@[u as int].gene_indices().contains(h),
            forall|u: usize, h: usize|
                u < t && h < genes@.len() && #[trigger] terms@[u as int].gene_indices().contains(h)
                    ==> genes@[h as int].term_indices().contains(u),
        decreases terms.len() - t,
    {
        let list = terms[t].genes();
        let mut k: usize = 0;
        while k < list.len()
            invariant
                lists_in_range(genes@, terms@),
                t < terms@.len(),
                list@ == terms@[t as int].gene_indices(),
                k <= list@.len(),
                forall|h: usize, u: usize|
                    h < genes@.len() && u < terms@.len() && #[trigger] genes@[h as int].term_indices().contains(u)
                        ==> terms@[u as int].gene_indices().contains(h),
                forall|u: usize, h: usize|
                    u < t && h < genes@.len() && #[trigger] terms@[u as int].gene_indices().contains(h)
                        ==> genes@[h as int].term_indices().contains(u),
                forall|j: int|
                    0 <= j < k ==> genes@[#[trigger] list@[j] as int].term_indices().contains(t),
            decreases list.len() - k,
        {
            let h = list[k];
            assert(h < genes@.len());
            if !index_listed(genes[h].terms(), t) {
                proof {
                    assert(terms@[t as int].gene_indices()[k as int] == h);
                    assert(terms@[t as int].gene_indices().contains(h));
                }
                return Err(GraphError::AsymmetricMembership);
            }
            k = k + 1;
        }
        proof {
            assert forall|u: usize, h: usize|
                u < t + 1 && h < genes@.len() && #[trigger] terms@[u as int].gene_indices().contains(
                    h,
                ) implies genes@[h as int].term_indices().contains(u) by {
                if u == t {
                    let j = choose|j: int| 0 <= j < list@.len() && list@[j] == h;
                }
            }
        }
        t = t + 1;
    }
    Ok(())
}

/// Gene nodes for the records, in record order, each inactive and without
/// memberships.
fn genes_from_records<Id, Gd>(records: Vec<(Id, Gd)>) -> (r: Vec<Gene<Id, Gd>>)
    ensures
        r@.len() == records@.len(),
        forall|i: int|
            #![trigger r@[i]]
            0 <= i < records@.len() ==> {
                &&& r@[i].id_of() == records@[i].0
                &&& r@[i].data_of() == records@[i].1
                &&& r@[i].term_indices() == Seq::<usize>::empty()
                &&& r@[i].activity_spec() == (SaveableData { current: false, saved: false })
            },
{
    let ghost orig = records@;
    let n = records.len();
    let mut records = records;
    let mut reversed: Vec<(Id, Gd)> = Vec::new();
    while records.len() > 0
        invariant
            records@.len() + reversed@.len() == n,
            n == orig.len(),
            forall|i: int| 0 <= i < records@.len() ==> #[trigger] records@[i] == orig[i],
            forall|i: int| 0 <= i < reversed@.len() ==> #[trigger] reversed@[i] == orig[n - 1 - i],
        decreases records.len(),
    {
        let rec = records.pop().unwrap();
        reversed.push(rec);
    }
    let mut out: Vec<Gene<Id, Gd>> = Vec::new();
    while reversed.len() > 0
        invariant
            reversed@.len() + out@.len() == n,
            n == orig.len(),
            forall|i: int| 0 <= i < reversed@.len() ==> #[trigger] reversed@[i] == orig[n - 1 - i],
            forall|i: int|
                #![trigger out@[i]]
                0 <= i < out@.len() ==> {
                    &&& out@[i].id_of() == orig[i].0
                    &&& out@[i].data_of() == orig[i].1
                    &&& out@[i].term_indices() == Seq::<usize>::empty()
                    &&& out@[i].activity_spec() == (SaveableData { current: false, saved: false })
                },
        decreases reversed.len(),
    {
        let (id, data) = reversed.pop().unwrap();
        out.push(Gene::new(id, data, Vec::new()));
    }
    out
}

/// Term nodes for the records, in record order, each inactive and without
/// members.
fn terms_from_records<Id, Td>(records: Vec<(Id, Td)>) -> (r: Vec<Term<Id, Td>>)
    ensures
        r@.len() == records@.len(),
        forall|i: int|
            #![trigger r@[i]]
            0 <= i < records@.len() ==> {
                &&& r@[i].id_of() == records@[i].0
                &&& r@[i].data_of() == records@[i].1
                &&& r@[i].gene_indices() == Seq::<usize>::empty()
                &&& r@[i].activity_spec() == (SaveableData { current: false, saved: false })
            },
{
    let ghost orig = records@;
    let n = records.len();
    let mut records = records;
    let mut reversed: Vec<(Id, Td)> = Vec::new();
    while records.len() > 0
        invariant
            records@.len() + reversed@.len() == n,
            n == orig.len(),
            forall|i: int| 0 <= i < records@.len() ==> #[trigger] records@[i] == orig[i],
            forall|i: int| 0 <= i < reversed@.len() ==> #[trigger] reversed@[i] == orig[n - 1 - i],
        decreases records.len(),
    {
        let rec = records.pop().unwrap();
        reversed.push(rec);
    }
    let mut out: Vec<Term<Id, Td>> = Vec::new();
    while reversed.len() > 0
        invariant
            reversed@.len() + out@.len() == n,
            n == orig.len(),
            forall|i: int| 0 <= i < reversed@.len() ==> #[trigger] reversed@[i] == orig[n - 1 - i],
            forall|i: int|
                #![trigger out@[i]]
                0 <= i < out@.len() ==> {
                    &&& out@[i].id_of() == orig[i].0
                    &&& out@[i].data_of() == orig[i].1
                    &&& out@[i].gene_indices() == Seq::<usize>::empty()
                    &&& out@[i].activity_spec() == (SaveableData { current: false, saved: false })
                },
        decreases reversed.len(),
    {
        let (id, data) = reversed.pop().unwrap();
        out.push(Term::new(id, data, Vec::new()));
    }
    out
}

impl<Id, Td, Gd> GeneOntology<Id, Td, Gd> {
    pub closed spec fn gene_nodes(&self) -> Seq<Gene<Id, Gd>> {
        self.genes@
    }

    pub closed spec fn term_nodes(&self) -> Seq<Term<Id, Td>> {
        self.terms@
    }

    /// The graph invariant: indices in range and membership mutual.
    pub open spec fn wf(&self) -> bool {
        &&& lists_in_range(self.gene_nodes(), self.term_nodes())
        &&& mutual_membership(self.gene_nodes(), self.term_nodes())
    }

    /// The checkpoint of every gene, by index.
    pub open spec fn gene_checkpoints(&self) -> Seq<SaveableData<bool>> {
        Seq::new(self.gene_nodes().len(), |i: int| self.gene_nodes()[i].activity_spec())
    }

    /// The checkpoint of every term, by index.
    pub open spec fn term_checkpoints(&self) -> Seq<SaveableData<bool>> {
        Seq::new(self.term_nodes().len(), |i: int| self.term_nodes()[i].activity_spec())
    }

    /// The live activity of every gene, by index.
    pub open spec fn gene_activity(&self) -> Seq<bool> {
        Seq::new(self.gene_nodes().len(), |i: int| self.gene_nodes()[i].activity_spec().current)
    }

    /// The live activity of every term, by index.
    pub open spec fn term_activity(&self) -> Seq<bool> {
        Seq::new(self.term_nodes().len(), |i: int| self.term_nodes()[i].activity_spec().current)
    }

    /// The member list of every term, by index.
    pub open spec fn member_lists(&self) -> Seq<Seq<usize>> {
        Seq::new(self.term_nodes().len(), |i: int| self.term_nodes()[i].gene_indices())
    }

    /// Same nodes with the same records, whatever their activities.
    pub open spec fn same_structure(&self, other: &Self) -> bool {
        &&& self.gene_nodes().len() == other.gene_nodes().len()
        &&& self.term_nodes().len() == other.term_nodes().len()
        &&& forall|i: int|
            0 <= i < self.gene_nodes().len() ==> #[trigger] self.gene_nodes()[i].same_record(
                &other.gene_nodes()[i],
            )
        &&& forall|i: int|
            0 <= i < self.term_nodes().len() ==> #[trigger] self.term_nodes()[i].same_record(
                &other.term_nodes()[i],
            )
    }

    /// Member genes of term `t`.
    pub open spec fn member_genes(&self, t: int) -> Seq<usize> {
        self.term_nodes()[t].gene_indices()
    }

    /// Terms that gene `g` belongs to.
    pub open spec fn member_of_terms(&self, g: int) -> Seq<usize> {
        self.gene_nodes()[g].term_indices()
    }

    /// A graph over the given node arenas, when their membership lists are
    /// in range and mutual.
    pub fn new(genes: Vec<Gene<Id, Gd>>, terms: Vec<Term<Id, Td>>) -> (r: Result<Self, GraphError>)
        ensures
            r is Ok <==> lists_in_range(genes@, terms@) && mutual_membership(genes@, terms@),
            r == Err::<Self, GraphError>(GraphError::IndexOutOfRange) <==> !lists_in_range(
                genes@,
                terms@,
            ),
            r matches Ok(g) ==> g.gene_nodes() == genes@ && g.term_nodes() == terms@ && g.wf(),
    {
        match check_membership(&genes, &terms) {
            Ok(()) => Ok(GeneOntology { genes, terms }),
            Err(e) => Err(e),
        }
    }

    /// Builds the graph from gene records, term records and an incidence
    /// list of `(term index, gene index)` pairs: every node starts inactive,
    /// and each edge is listed on both of its ends, in incidence-list order.
    /// Fails when an edge names an index past either record list.
    pub fn from_incidence(genes: Vec<(Id, Gd)>, terms: Vec<(Id, Td)>, adj: Vec<(usize, usize)>) -> (r:
        Result<Self, GraphError>)
        ensures
            r is Ok <==> edges_in_range(adj@, genes@.len() as int, terms@.len() as int),
            r is Err ==> r == Err::<Self, GraphError>(GraphError::IndexOutOfRange),
            r matches Ok(g) ==> {
                &&& g.wf()
                &&& g.gene_nodes().len() == genes@.len()
                &&& g.term_nodes().len() == terms@.len()
                &&& forall|i: int|
                    #![trigger g.gene_nodes()[i]]
                    0 <= i < genes@.len() ==> {
                        &&& g.gene_nodes()[i].id_of() == genes@[i].0
                        &&& g.gene_nodes()[i].data_of() == genes@[i].1
                        &&& g.gene_nodes()[i].term_indices() == terms_of_gene(adj@, i)
                        &&& g.gene_nodes()[i].activity_spec() == (SaveableData {
                            current: false,
                            saved: false,
                        })
                    }
                &&& forall|j: int|
                    #![trigger g.term_nodes()[j]]
                    0 <= j < terms@.len() ==> {
                        &&& g.term_nodes()[j].id_of() == terms@[j].0
                        &&& g.term_nodes()[j].data_of() == terms@[j].1
                        &&& g.term_nodes()[j].gene_indices() == members_of_term(adj@, j)
                        &&& g.term_nodes()[j].activity_spec() == (SaveableData {
                            current: false,
                            saved: false,
                        })
                    }
            },
    {
        let n_genes = genes.len();
        let n_terms = terms.len();
        let mut k: usize = 0;
        while k < adj.len()
            invariant
                k <= adj@.len(),
                n_genes == genes@.len(),
                n_terms == terms@.len(),
                forall|j: int| 0 <= j < k ==> #[trigger] adj@[j].0 < n_terms && adj@[j].1 < n_genes,
            decreases adj.len() - k,
        {
            let (t, g) = adj[k];
            if t >= n_terms || g >= n_genes {
                proof {
                    assert(!(adj@[k as int].0 < n_terms && adj@[k as int].1 < n_genes));
                    assert(!edges_in_range(adj@, n_genes as int, n_terms as int));
                }
                return Err(GraphError::IndexOutOfRange);
            }
            k = k + 1;
        }
        let ghost gene_records = genes@;
        let ghost term_records = terms@;
        let mut gene_nodes = genes_from_records(genes);
        let mut term_nodes = terms_from_records(terms);
        let mut k: usize = 0;
        proof {
            let none = adj@.take(0);
            assert(none.len() == 0);
            assert forall|i: int| 0 <= i < n_genes implies terms_of_gene(none, i) == Seq::<
                usize,
            >::empty() by {}
            assert forall|j: int| 0 <= j < n_terms implies members_of_term(none, j) == Seq::<
                usize,
            >::empty() by {}
        }
        while k < adj.len()
            invariant
                edges_in_range(adj@, n_genes as int, n_terms as int),
                k <= adj@.len(),
                gene_nodes@.len() == n_genes == gene_records.len(),
                term_nodes@.len() == n_terms == term_records.len(),
                forall|i: int|
                    #![trigger gene_nodes@[i]]
                    0 <= i < n_genes ==> {
                        &&& gene_nodes@[i].id_of() == gene_records[i].0
                        &&& gene_nodes@[i].data_of() == gene_records[i].1
                        &&& gene_nodes@[i].term_indices() == terms_of_gene(adj@.take(k as int), i)
                        &&& gene_nodes@[i].activity_spec() == (SaveableData {
                            current: false,
                            saved: false,
                        })
                    },
                forall|j: int|
                    #![trigger term_nodes@[j]]
                    0 <= j < n_terms ==> {
                        &&& term_nodes@[j].id_of() == term_records[j].0
                        &&& term_nodes@[j].data_of() == term_records[j].1
                        &&& term_nodes@[j].gene_indices() == members_of_term(adj@.take(k as int), j)
                        &&& term_nodes@[j].activity_spec() == (SaveableData {
                            current: false,
                            saved: false,
                        })
                    },
            decreases adj.len() - k,
        {
            let (t, g) = adj[k];
            proof {
                assert(adj@[k as int].0 < n_terms && adj@[k as int].1 < n_genes);
                assert(adj@.take(k + 1).drop_last() =~= adj@.take(k as int));
                assert(adj@.take(k + 1).last() == adj@[k as int]);
            }
            let ghost genes_before = gene_nodes@;
            let ghost terms_before = term_nodes@;
            term_nodes[t].add_gene(g);
            gene_nodes[g].add_term(t);
            proof {
                let prefix = adj@.take(k + 1);
                assert forall|i: int| 0 <= i < n_genes implies #[trigger] gene_nodes@[i].term_indices()
                    == terms_of_gene(prefix, i) by {
                    if i != g {
                        assert(gene_nodes@[i] == genes_before[i]);
                    }
                }
                assert forall|j: int| 0 <= j < n_terms implies #[trigger] term_nodes@[j].gene_indices()
                    == members_of_term(prefix, j) by {
                    if j != t {
                        assert(term_nodes@[j] == terms_before[j]);
                    }
                }
            }
            k = k + 1;
        }
        proof {
            assert(adj@.take(adj@.len() as int) =~= adj@);
            assert forall|g: int, j: int|
                0 <= g < gene_nodes@.len() && 0 <= j < gene_nodes@[g].term_indices().len()
                    implies #[trigger] gene_nodes@[g].term_indices()[j] < term_nodes@.len() by {
                lemma_incidence_in_range(adj@, n_genes as int, n_terms as int, g);
            }
            assert forall|t: int, j: int|
                0 <= t < term_nodes@.len() && 0 <= j < term_nodes@[t].gene_indices().len()
                    implies #[trigger] term_nodes@[t].gene_indices()[j] < gene_nodes@.len() by {
                lemma_incidence_in_range(adj@, n_genes as int, n_terms as int, t);
            }
            assert forall|g: usize, t: usize|
                g < gene_nodes@.len() && t < term_nodes@.len() implies (
                #[trigger] gene_nodes@[g as int].term_indices().contains(t)
                    <==> #[trigger] term_nodes@[t as int].gene_indices().contains(g)) by {
                lemma_members_of_term(adj@, t, g);
                lemma_terms_of_gene(adj@, t, g);
            }
        }
        Ok(GeneOntology { genes: gene_nodes, terms: term_nodes })
    }

    /// A graph with the same structure as a well-formed one is well formed.
    pub proof fn lemma_same_structure_wf(&self, other: &Self)
        requires
            other.wf(),
            self.same_structure(other),
        ensures
            self.wf(),
    {
        assert forall|g: int, k: int|
            0 <= g < self.gene_nodes().len() && 0 <= k < self.gene_nodes()[g].term_indices().len()
                implies #[trigger] self.gene_nodes()[g].term_indices()[k]
                < self.term_nodes().len() by {
            assert(self.gene_nodes()[g].same_record(&other.gene_nodes()[g]));
            assert(other.gene_nodes()[g].term_indices()[k] < other.term_nodes().len());
        }
        assert forall|t: int, k: int|
            0 <= t < self.term_nodes().len() && 0 <= k < self.term_nodes()[t].gene_indices().len()
                implies #[trigger] self.term_nodes()[t].gene_indices()[k]
                < self.gene_nodes().len() by {
            assert(self.term_nodes()[t].same_record(&other.term_nodes()[t]));
            assert(other.term_nodes()[t].gene_indices()[k] < other.gene_nodes().len());
        }
        assert forall|g: usize, t: usize|
            g < self.gene_nodes().len() && t < self.term_nodes().len() implies (
            #[trigger] self.gene_nodes()[g as int].term_indices().contains(t)
                <==> #[trigger] self.term_nodes()[t as int].gene_indices().contains(g)) by {
            assert(self.gene_nodes()[g as int].same_record(&other.gene_nodes()[g as int]));
            assert(self.term_nodes()[t as int].same_record(&other.term_nodes()[t as int]));
            assert(other.gene_nodes()[g as int].term_indices().contains(t)
                <==> other.term_nodes()[t as int].gene_indices().contains(g));
        }
    }

    /// Sharing the structure is transitive.
    pub proof fn lemma_same_structure_trans(&self, mid: &Self, other: &Self)
        requires
            self.same_structure(mid),
            mid.same_structure(other),
        ensures
            self.same_structure(other),
    {
        assert forall|i: int| 0 <= i < self.gene_nodes().len() implies #[trigger] self.gene_nodes()[i].same_record(
            &other.gene_nodes()[i],
        ) by {
            assert(self.gene_nodes()[i].same_record(&mid.gene_nodes()[i]));
            assert(mid.gene_nodes()[i].same_record(&other.gene_nodes()[i]));
        }
        assert forall|i: int| 0 <= i < self.term_nodes().len() implies #[trigger] self.term_nodes()[i].same_record(
            &other.term_nodes()[i],
        ) by {
            assert(self.term_nodes()[i].same_record(&mid.term_nodes()[i]));
            assert(mid.term_nodes()[i].same_record(&other.term_nodes()[i]));
        }
    }

    /// Graphs with the same structure have the same member lists.
    pub proof fn lemma_same_structure_lists(&self, other: &Self)
        requires
            self.same_structure(other),
        ensures
            self.member_lists() == other.member_lists(),
    {
        assert forall|i: int| 0 <= i < self.term_nodes().len() implies self.member_lists()[i]
            == other.member_lists()[i] by {
            assert(self.term_nodes()[i].same_record(&other.term_nodes()[i]));
        }
        assert(self.member_lists() =~= other.member_lists());
    }

    /// The live activities are the live parts of the checkpoints.
    pub proof fn lemma_activity_is_current(&self)
        ensures
            self.gene_activity().len() == self.gene_checkpoints().len(),
            self.term_activity().len() == self.term_checkpoints().len(),
            forall|i: int|
                0 <= i < self.gene_activity().len() ==> #[trigger] self.gene_activity()[i]
                    == self.gene_checkpoints()[i].current,
            forall|i: int|
                0 <= i < self.term_activity().len() ==> #[trigger] self.term_activity()[i]
                    == self.term_checkpoints()[i].current,
    {
    }

    /// Proposes a flip of gene `i`: commits its activity, then inverts it.
    pub fn flip_gene(&mut self, i: usize)
        requires
            i < old(self).gene_nodes().len(),
        ensures
            final(self).same_structure(old(self)),
            final(self).gene_checkpoints() == old(self).gene_checkpoints().update(
                i as int,
                old(self).gene_checkpoints()[i as int].with_activity(
                    !old(self).gene_checkpoints()[i as int].current,
                ),
            ),
            final(self).term_checkpoints() == old(self).term_checkpoints(),
    {
        let b = !self.genes[i].is_active();
        self.genes[i].set_activity(b);
        proof {
            assert(self.gene_checkpoints() =~= old(self).gene_checkpoints().update(
                i as int,
                old(self).gene_checkpoints()[i as int].with_activity(b),
            ));
            assert(self.term_checkpoints() =~= old(self).term_checkpoints());
        }
    }

    /// Rolls gene `i` back to its committed activity.
    pub fn restore_gene(&mut self, i: usize)
        requires
            i < old(self).gene_nodes().len(),
        ensures
            final(self).same_structure(old(self)),
            final(self).gene_checkpoints() == old(self).gene_checkpoints().update(
                i as int,
                old(self).gene_checkpoints()[i as int].restored(),
            ),
            final(self).term_checkpoints() == old(self).term_checkpoints(),
    {
        self.genes[i].restore();
        proof {
            assert(self.gene_checkpoints() =~= old(self).gene_checkpoints().update(
                i as int,
                old(self).gene_checkpoints()[i as int].restored(),
            ));
            assert(self.term_checkpoints() =~= old(self).term_checkpoints());
        }
    }

    /// Proposes a flip of term `i`: commits its activity, then inverts it.
    pub fn flip_term(&mut self, i: usize)
        requires
            i < old(self).term_nodes().len(),
        ensures
            final(self).same_structure(old(self)),
            final(self).term_checkpoints() == old(self).term_checkpoints().update(
                i as int,
                old(self).term_checkpoints()[i as int].with_activity(
                    !old(self).term_checkpoints()[i as int].current,
                ),
            ),
            final(self).gene_checkpoints() == old(self).gene_checkpoints(),
    {
        let b = !self.terms[i].is_active();
        self.terms[i].set_activity(b);
        proof {
            assert(self.term_checkpoints() =~= old(self).term_checkpoints().update(
                i as int,
                old(self).term_checkpoints()[i as int].with_activity(b),
            ));
            assert(self.gene_checkpoints() =~= old(self).gene_checkpoints());
        }
    }

    /// Rolls term `i` back to its committed activity.
    pub fn restore_term(&mut self, i: usize)
        requires
            i < old(self).term_nodes().len(),
        ensures
            final(self).same_structure(old(self)),
            final(self).term_checkpoints() == old(self).term_checkpoints().update(
                i as int,
                old(self).term_checkpoints()[i as int].restored(),
            ),
            final(self).gene_checkpoints() == old(self).gene_checkpoints(),
    {
        self.terms[i].restore();
        proof {
            assert(self.term_checkpoints() =~= old(self).term_checkpoints().update(
                i as int,
                old(self).term_checkpoints()[i as int].restored(),
            ));
            assert(self.gene_checkpoints() =~= old(self).gene_checkpoints());
        }
    }

    /// The live activity of every gene.
    pub fn gene_activities(&self) -> (r: Vec<bool>)
        ensures
            r@ == self.gene_activity(),
    {
        let mut r: Vec<bool> = Vec::new();
        let mut i: usize = 0;
        while i < self.genes.len()
            invariant
                i <= self.gene_nodes().len(),
                r@ =~= self.gene_activity().take(i as int),
            decreases self.genes.len() - i,
        {
            r.push(self.genes[i].is_active());
            i = i + 1;
        }
        r
    }

    /// The live activity of every term.
    pub fn term_activities(&self) -> (r: Vec<bool>)
        ensures
            r@ == self.term_activity(),
    {
        let mut r: Vec<bool> = Vec::new();
        let mut i: usize = 0;
        while i < self.terms.len()
            invariant
                i <= self.term_nodes().len(),
                r@ =~= self.term_activity().take(i as int),
            decreases self.terms.len() - i,
        {
            r.push(self.terms[i].is_active());
            i = i + 1;
        }
        r
    }

    pub fn genes(&self) -> (r: &Vec<Gene<Id, Gd>>)
        ensures
            r@ == self.gene_nodes(),
    {
        &self.genes
    }

    pub fn terms(&self) -> (r: &Vec<Term<Id, Td>>)
        ensures
            r@ == self.term_nodes(),
    {
        &self.terms
    }
}

} // verus!

verus! {

impl<Id, Td, Gd> GeneSet for GeneOntology<Id, Td, Gd> {
    type PartNode = Gene<Id, Gd>;
    type WholeNode = Term<Id, Td>;

    open spec fn parts_spec(&self) -> Seq<Gene<Id, Gd>> {
        self.gene_nodes()
    }

    open spec fn wholes_spec(&self) -> Seq<Term<Id, Td>> {
        self.term_nodes()
    }

    fn parts(&self) -> (r: &Vec<Gene<Id, Gd>>) {
        &self.genes
    }

    fn wholes(&self) -> (r: &Vec<Term<Id, Td>>) {
        &self.terms
    }
}

impl<Id, Td, Gd> Saveable for GeneOntology<Id, Td, Gd> {
    type Output = ();

    open spec fn current_spec(&self) -> () {
        ()
    }

    open spec fn saved_spec(&self) -> () {
        ()
    }

    /// Commits the activity of every node.
    fn save(&mut self)
        ensures
            final(self).same_structure(old(self)),
            final(self).gene_checkpoints() == Seq::new(
                old(self).gene_checkpoints().len(),
                |i: int| old(self).gene_checkpoints()[i].committed(),
            ),
            final(self).term_checkpoints() == Seq::new(
                old(self).term_checkpoints().len(),
                |i: int| old(self).term_checkpoints()[i].committed(),
            ),
    {
        let ghost start = *self;
        let mut i: usize = 0;
        while i < self.genes.len()
            invariant
                i <= self.gene_nodes().len(),
                self.same_structure(&start),
                self.term_nodes() == start.term_nodes(),
                forall|j: int|
                    0 <= j < i ==> #[trigger] self.gene_nodes()[j].activity_spec()
                        == start.gene_nodes()[j].activity_spec().committed(),
                forall|j: int|
                    i <= j < self.gene_nodes().len() ==> #[trigger] self.gene_nodes()[j]
                        == start.gene_nodes()[j],
            decreases self.genes.len() - i,
        {
            let ghost here = *self;
            self.genes[i].save();
            proof {
                self.lemma_same_structure_trans(&here, &start);
            }
            i = i + 1;
        }
        let mut i: usize = 0;
        while i < self.terms.len()
            invariant
                i <= self.term_nodes().len(),
                self.same_structure(&start),
                forall|j: int|
                    0 <= j < self.gene_nodes().len() ==> #[trigger] self.gene_nodes()[j].activity_spec()
                        == start.gene_nodes()[j].activity_spec().committed(),
                forall|j: int|
                    0 <= j < i ==> #[trigger] self.term_nodes()[j].activity_spec()
                        == start.term_nodes()[j].activity_spec().committed(),
                forall|j: int|
                    i <= j < self.term_nodes().len() ==> #[trigger] self.term_nodes()[j]
                        == start.term_nodes()[j],
            decreases self.terms.len() - i,
        {
            let ghost here = *self;
            self.terms[i].save();
            proof {
                self.lemma_same_structure_trans(&here, &start);
            }
            i = i + 1;
        }
        proof {
            assert(self.gene_checkpoints() =~= Seq::new(
                start.gene_checkpoints().len(),
                |i: int| start.gene_checkpoints()[i].committed(),
            ));
            assert(self.term_checkpoints() =~= Seq::new(
                start.term_checkpoints().len(),
                |i: int| start.term_checkpoints()[i].committed(),
            ));
        }
    }

    /// Rolls every node back to its committed activity.
    fn restore(&mut self)
        ensures
            final(self).same_structure(old(self)),
            final(self).gene_checkpoints() == Seq::new(
                old(self).gene_checkpoints().len(),
                |i: int| old(self).gene_checkpoints()[i].restored(),
            ),
            final(self).term_checkpoints() == Seq::new(
                old(self).term_checkpoints().len(),
                |i: int| old(self).term_checkpoints()[i].restored(),
            ),
    {
        let ghost start = *self;
        let mut i: usize = 0;
        while i < self.genes.len()
            invariant
                i <= self.gene_nodes().len(),
                self.same_structure(&start),
                self.term_nodes() == start.term_nodes(),
                forall|j: int|
                    0 <= j < i ==> #[trigger] self.gene_nodes()[j].activity_spec()
                        == start.gene_nodes()[j].activity_spec().restored(),
                forall|j: int|
                    i <= j < self.gene_nodes().len() ==> #[trigger] self.gene_nodes()[j]
                        == start.gene_nodes()[j],
            decreases self.genes.len() - i,
        {
            let ghost here = *self;
            self.genes[i].restore();
            proof {
                self.lemma_same_structure_trans(&here, &start);
            }
            i = i + 1;
        }
        let mut i: usize = 0;
        while i < self.terms.len()
            invariant
                i <= self.term_nodes().len(),
                self.same_structure(&start),
                forall|j: int|
                    0 <= j < self.gene_nodes().len() ==> #[trigger] self.gene_nodes()[j].activity_spec()
                        == start.gene_nodes()[j].activity_spec().restored(),
                forall|j: int|
                    0 <= j < i ==> #[trigger] self.term_nodes()[j].activity_spec()
                        == start.term_nodes()[j].activity_spec().restored(),
                forall|j: int|
                    i <= j < self.term_nodes().len() ==> #[trigger] self.term_nodes()[j]
                        == start.term_nodes()[j],
            decreases self.terms.len() - i,
        {
            let ghost here = *self;
            self.terms[i].restore();
            proof {
                self.lemma_same_structure_trans(&here, &start);
            }
            i = i + 1;
        }
        proof {
            assert(self.gene_checkpoints() =~= Seq::new(
                start.gene_checkpoints().len(),
                |i: int| start.gene_checkpoints()[i].restored(),
            ));
            assert(self.term_checkpoints() =~= Seq::new(
                start.term_checkpoints().len(),
                |i: int| start.term_checkpoints()[i].restored(),
            ));
        }
    }

    fn current(&self) -> (r: ()) {
        ()
    }

    fn saved(&self) -> (r: ()) {
        ()
    }
}

/// In every built graph, gene `g` lists term `t` among its terms exactly
/// when term `t` lists gene `g` among its members.
pub proof fn lemma_mutual_membership<Id, Td, Gd>(graph: &GeneOntology<Id, Td, Gd>, g: usize, t: usize)
    requires
        graph.wf(),
        g < graph.gene_nodes().len(),
        t < graph.term_nodes().len(),
    ensures
        graph.member_of_terms(g as int).contains(t) <==> graph.member_genes(t as int).contains(g),
{
    assert(graph.gene_nodes()[g as int].term_indices().contains(t)
        <==> graph.term_nodes()[t as int].gene_indices().contains(g));
}

} // verus!

use vstd::prelude::*;
use crate::activeable::Activeable;
use crate::gene_ontology::GeneOntology;
use crate::node::Node;
use crate::observation::Observation;

verus! {

/// The number of genes below `n` whose activity is `active` and whose
/// observation is `hit`.
pub open spec fn count_parts(acts: Seq<bool>, hits: Seq<bool>, active: bool, hit: bool, n: int) -> nat
    decreases n,
{
    if n <= 0 {
        0
    } else {
        count_parts(acts, hits, active, hit, n - 1) + if acts[n - 1] == active && hits[n - 1]
            == hit {
            1nat
        } else {
            0nat
        }
    }
}

/// The number of positions below `n` that hold `value`.
pub open spec fn count_value(flags: Seq<bool>, value: bool, n: int) -> nat
    decreases n,
{
    if n <= 0 {
        0
    } else {
        count_value(flags, value, n - 1) + if flags[n - 1] == value {
            1nat
        } else {
            0nat
        }
    }
}

/// The number of the first `n` members whose gene is active.
pub open spec fn count_active_members(members: Seq<usize>, gene_acts: Seq<bool>, n: int) -> nat
    decreases n,
{
    if n <= 0 {
        0
    } else {
        count_active_members(members, gene_acts, n - 1) + if gene_acts[members[n - 1] as int] {
            1nat
        } else {
            0nat
        }
    }
}

/// The legality rule of a term: an active term needs at least one active
/// member gene; an inactive term may have at most half of its members
/// active. Any other state is illegal and costs the illegal-set penalty.
pub open spec fn term_legal(active: bool, members: Seq<usize>, gene_acts: Seq<bool>) -> bool {
    let a = count_active_members(members, gene_acts, members.len() as int);
    if active {
        a > 0
    } else {
        2 * a <= members.len()
    }
}

/// The number of illegal terms among the first `n`.
pub open spec fn count_illegal(lists: Seq<Seq<usize>>, term_acts: Seq<bool>, gene_acts: Seq<bool>, n: int) -> nat
    decreases n,
{
    if n <= 0 {
        0
    } else {
        count_illegal(lists, term_acts, gene_acts, n - 1) + if term_legal(
            term_acts[n - 1],
            lists[n - 1],
            gene_acts,
        ) {
            0nat
        } else {
            1nat
        }
    }
}

/// How the genes split by (activity, observation): the sufficient statistics
/// of the parts' log-likelihood.
#[derive(Clone, Copy, Debug, PartialEq, Eq, Structural)]
pub struct PartCounts {
    pub active_hit: usize,
    pub active_miss: usize,
    pub inactive_hit: usize,
    pub inactive_miss: usize,
}

/// How the terms split by activity, and how many are illegal: the sufficient
/// statistics of the wholes' log-likelihood.
#[derive(Clone, Copy, Debug, PartialEq, Eq, Structural)]
pub struct WholeCounts {
    pub active: usize,
    pub inactive: usize,
    pub illegal: usize,
}

/// The sufficient statistics of the total data log-likelihood.
#[derive(Clone, Copy, Debug, PartialEq, Eq, Structural)]
pub struct LikelihoodCounts {
    pub parts: PartCounts,
    pub wholes: WholeCounts,
}

/// Why a likelihood could not be evaluated.
#[derive(Clone, Copy, Debug, PartialEq, Eq, Structural)]
pub enum LikelihoodError {
    /// The observation of this gene is neither a hit nor a miss.
    InvalidObservation { gene: usize },
}

impl PartCounts {
    /// These are the counts of the genes with activities `acts` and hits `hits`.
    pub open spec fn of(self, acts: Seq<bool>, hits: Seq<bool>) -> bool {
        let n = acts.len() as int;
        &&& self.active_hit == count_parts(acts, hits, true, true, n)
        &&& self.active_miss == count_parts(acts, hits, true, false, n)
        &&& self.inactive_hit == count_parts(acts, hits, false, true, n)
        &&& self.inactive_miss == count_parts(acts, hits, false, false, n)
    }
}

impl WholeCounts {
    /// These are the counts of the terms with member lists `lists` and
    /// activities `term_acts`, over the gene activities `gene_acts`.
    pub open spec fn of(self, lists: Seq<Seq<usize>>, term_acts: Seq<bool>, gene_acts: Seq<bool>) -> bool {
        let n = term_acts.len() as int;
        &&& self.active == count_value(term_acts, true, n)
        &&& self.inactive == count_value(term_acts, false, n)
        &&& self.illegal == count_illegal(lists, term_acts, gene_acts, n)
    }
}

impl LikelihoodCounts {
    /// These are the counts of a graph with member lists `lists` and gene
    /// hits `hits`, in the activity state `gene_acts`, `term_acts`.
    pub open spec fn of(
        self,
        lists: Seq<Seq<usize>>,
        hits: Seq<bool>,
        gene_acts: Seq<bool>,
        term_acts: Seq<bool>,
    ) -> bool {
        &&& self.parts.of(gene_acts, hits)
        &&& self.wholes.of(lists, term_acts, gene_acts)
    }
}

/// Every index of every list names one of `n` genes.
pub open spec fn lists_bounded(lists: Seq<Seq<usize>>, n: int) -> bool {
    forall|t: int, k: int|
        0 <= t < lists.len() && 0 <= k < lists[t].len() ==> #[trigger] lists[t][k] < n
}

proof fn lemma_count_parts_total(acts: Seq<bool>, hits: Seq<bool>, n: int)
    requires
        0 <= n,
    ensures
        count_parts(acts, hits, true, true, n) + count_parts(acts, hits, true, false, n)
            + count_parts(acts, hits, false, true, n) + count_parts(acts, hits, false, false, n)
            == n,
    decreases n,
{
    if n > 0 {
        lemma_count_parts_total(acts, hits, n - 1);
    }
}

proof fn lemma_count_value_total(flags: Seq<bool>, n: int)
    requires
        0 <= n,
    ensures
        count_value(flags, true, n) + count_value(flags, false, n) == n,
    decreases n,
{
    if n > 0 {
        lemma_count_value_total(flags, n - 1);
    }
}

proof fn lemma_count_illegal_bound(
    lists: Seq<Seq<usize>>,
    term_acts: Seq<bool>,
    gene_acts: Seq<bool>,
    n: int,
)
    requires
        0 <= n,
    ensures
        count_illegal(lists, term_acts, gene_acts, n) <= n,
    decreases n,
{
    if n > 0 {
        lemma_count_illegal_bound(lists, term_acts, gene_acts, n - 1);
    }
}

/// The statistics of the total log-likelihood are exactly those of the parts
/// together with those of the wholes, so the total is the parts' term plus
/// the wholes' term.
pub proof fn lemma_likelihood_decomposition(
    total: LikelihoodCounts,
    parts: PartCounts,
    wholes: WholeCounts,
    lists: Seq<Seq<usize>>,
    hits: Seq<bool>,
    gene_acts: Seq<bool>,
    term_acts: Seq<bool>,
)
    requires
        parts.of(gene_acts, hits),
        wholes.of(lists, term_acts, gene_acts),
    ensures
        total.of(lists, hits, gene_acts, term_acts) <==> total == (LikelihoodCounts {
            parts,
            wholes,
        }),
{
}

/// Every gene falls in exactly one of the four (activity, hit) classes and
/// every term in exactly one of the two activity classes, and at most every
/// term is illegal. Each log-likelihood is thus a sum, with non-negative
/// weights, of logarithms of probabilities, minus a non-negative number of
/// penalties.
pub proof fn lemma_counts_cover_nodes(
    c: LikelihoodCounts,
    lists: Seq<Seq<usize>>,
    hits: Seq<bool>,
    gene_acts: Seq<bool>,
    term_acts: Seq<bool>,
)
    requires
        c.of(lists, hits, gene_acts, term_acts),
    ensures
        c.parts.active_hit + c.parts.active_miss + c.parts.inactive_hit + c.parts.inactive_miss
            == gene_acts.len(),
        c.wholes.active + c.wholes.inactive == term_acts.len(),
        c.wholes.illegal <= term_acts.len(),
{
    lemma_count_parts_total(gene_acts, hits, gene_acts.len() as int);
    lemma_count_value_total(term_acts, term_acts.len() as int);
    lemma_count_illegal_bound(lists, term_acts, gene_acts, term_acts.len() as int);
}

/// Term `t` is illegal in the activity state `term_acts`, `gene_acts`.
pub open spec fn illegal_at(lists: Seq<Seq<usize>>, term_acts: Seq<bool>, gene_acts: Seq<bool>, t: int) -> bool {
    !term_legal(term_acts[t], lists[t], gene_acts)
}

/// The number of illegal terms among the first `n`, judging the terms in `s`
/// by the second state and the others by the first.
spec fn count_mixed(
    lists: Seq<Seq<usize>>,
    ta: Seq<bool>,
    ga: Seq<bool>,
    ta2: Seq<bool>,
    ga2: Seq<bool>,
    s: Set<int>,
    n: int,
) -> nat
    decreases n,
{
    if n <= 0 {
        0
    } else {
        count_mixed(lists, ta, ga, ta2, ga2, s, n - 1) + if (if s.contains(n - 1) {
            illegal_at(lists, ta2, ga2, n - 1)
        } else {
            illegal_at(lists, ta, ga, n - 1)
        }) {
            1nat
        } else {
            0nat
        }
    }
}

proof fn lemma_mixed_none(
    lists: Seq<Seq<usize>>,
    ta: Seq<bool>,
    ga: Seq<bool>,
    ta2: Seq<bool>,
    ga2: Seq<bool>,
    n: int,
)
    ensures
        count_mixed(lists, ta, ga, ta2, ga2, Set::empty(), n) == count_illegal(lists, ta, ga, n),
    decreases n,
{
    if n > 0 {
        lemma_mixed_none(lists, ta, ga, ta2, ga2, n - 1);
    }
}

proof fn lemma_mixed_all(
    lists: Seq<Seq<usize>>,
    ta: Seq<bool>,
    ga: Seq<bool>,
    ta2: Seq<bool>,
    ga2: Seq<bool>,
    s: Set<int>,
    n: int,
)
    requires
        forall|t: int|
            0 <= t < n && !s.contains(t) ==> illegal_at(lists, ta2, ga2, t) == illegal_at(
                lists,
                ta,
                ga,
                t,
            ),
    ensures
        count_mixed(lists, ta, ga, ta2, ga2, s, n) == count_illegal(lists, ta2, ga2, n),
    decreases n,
{
    if n > 0 {
        lemma_mixed_all(lists, ta, ga, ta2, ga2, s, n - 1);
    }
}

proof fn lemma_mixed_insert(
    lists: Seq<Seq<usize>>,
    ta: Seq<bool>,
    ga: Seq<bool>,
    ta2: Seq<bool>,
    ga2: Seq<bool>,
    s: Set<int>,
    t: int,
    n: int,
)
    requires
        !s.contains(t),
        0 <= t,
    ensures
        t < n ==> count_mixed(lists, ta, ga, ta2, ga2, s.insert(t), n) + (if illegal_at(
            lists,
            ta,
            ga,
            t,
        ) {
            1int
        } else {
            0int
        }) == count_mixed(lists, ta, ga, ta2, ga2, s, n) + (if illegal_at(lists, ta2, ga2, t) {
            1int
        } else {
            0int
        }),
        t >= n ==> count_mixed(lists, ta, ga, ta2, ga2, s.insert(t), n) == count_mixed(
            lists,
            ta,
            ga,
            ta2,
            ga2,
            s,
            n,
        ),
    decreases n,
{
    if n > 0 {
        lemma_mixed_insert(lists, ta, ga, ta2, ga2, s, t, n - 1);
    }
}

proof fn lemma_mixed_bound(
    lists: Seq<Seq<usize>>,
    ta: Seq<bool>,
    ga: Seq<bool>,
    ta2: Seq<bool>,
    ga2: Seq<bool>,
    s: Set<int>,
    n: int,
)
    requires
        0 <= n,
    ensures
        count_mixed(lists, ta, ga, ta2, ga2, s, n) <= n,
    decreases n,
{
    if n > 0 {
        lemma_mixed_bound(lists, ta, ga, ta2, ga2, s, n - 1);
    }
}

/// Changing the activity of a gene that is not among the first `k` members
/// leaves their active count as it was.
proof fn lemma_active_members_other(members: Seq<usize>, ga: Seq<bool>, g: int, b: bool, k: int)
    requires
        0 <= g < ga.len(),
        k <= members.len(),
        forall|j: int| 0 <= j < k ==> members[j] != g,
        forall|j: int| 0 <= j < k ==> #[trigger] members[j] < ga.len(),
    ensures
        count_active_members(members, ga.update(g, b), k) == count_active_members(members, ga, k),
    decreases k,
{
    if k > 0 {
        lemma_active_members_other(members, ga, g, b, k - 1);
        assert(ga.update(g, b)[members[k - 1] as int] == ga[members[k - 1] as int]);
    }
}

proof fn lemma_count_parts_update(
    acts: Seq<bool>,
    hits: Seq<bool>,
    g: int,
    b: bool,
    active: bool,
    hit: bool,
    n: int,
)
    requires
        0 <= g < acts.len(),
        n <= acts.len(),
    ensures
        g < n ==> count_parts(acts.update(g, b), hits, active, hit, n) + (if acts[g] == active
            && hits[g] == hit {
            1int
        } else {
            0int
        }) == count_parts(acts, hits, active, hit, n) + (if b == active && hits[g] == hit {
            1int
        } else {
            0int
        }),
        g >= n ==> count_parts(acts.update(g, b), hits, active, hit, n) == count_parts(
            acts,
            hits,
            active,
            hit,
            n,
        ),
    decreases n,
{
    if n > 0 {
        lemma_count_parts_update(acts, hits, g, b, active, hit, n - 1);
        assert(acts.update(g, b)[n - 1] == if n - 1 == g {
            b
        } else {
            acts[n - 1]
        });
    }
}

proof fn lemma_count_value_update(flags: Seq<bool>, t: int, b: bool, value: bool, n: int)
    requires
        0 <= t < flags.len(),
        n <= flags.len(),
    ensures
        t < n ==> count_value(flags.update(t, b), value, n) + (if flags[t] == value {
            1int
        } else {
            0int
        }) == count_value(flags, value, n) + (if b == value {
            1int
        } else {
            0int
        }),
        t >= n ==> count_value(flags.update(t, b), value, n) == count_value(flags, value, n),
    decreases n,
{
    if n > 0 {
        lemma_count_value_update(flags, t, b, value, n - 1);
        assert(flags.update(t, b)[n - 1] == if n - 1 == t {
            b
        } else {
            flags[n - 1]
        });
    }
}

/// Counts the genes by activity and hit.
pub fn count_part_states(acts: &Vec<bool>, hits: &Vec<bool>) -> (r: PartCounts)
    requires
        acts@.len() == hits@.len(),
    ensures
        r.of(acts@, hits@),
{
    let mut c = PartCounts { active_hit: 0, active_miss: 0, inactive_hit: 0, inactive_miss: 0 };
    let mut i: usize = 0;
    while i < acts.len()
        invariant
            acts@.len() == hits@.len(),
            i <= acts@.len(),
            c.active_hit == count_parts(acts@, hits@, true, true, i as int),
            c.active_miss == count_parts(acts@, hits@, true, false, i as int),
            c.inactive_hit == count_parts(acts@, hits@, false, true, i as int),
            c.inactive_miss == count_parts(acts@, hits@, false, false, i as int),
            c.active_hit + c.active_miss + c.inactive_hit + c.inactive_miss == i,
        decreases acts.len() - i,
    {
        if acts[i] {
            if hits[i] {
                c.active_hit = c.active_hit + 1;
            } else {
                c.active_miss = c.active_miss + 1;
            }
        } else {
            if hits[i] {
                c.inactive_hit = c.inactive_hit + 1;
            } else {
                c.inactive_miss = c.inactive_miss + 1;
            }
        }
        i = i + 1;
    }
    c
}

/// Whether a term in state `active` with members `members` is legal.
pub fn is_legal_term(active: bool, members: &Vec<usize>, gene_acts: &Vec<bool>) -> (r: bool)
    requires
        forall|k: int| 0 <= k < members@.len() ==> #[trigger] members@[k] < gene_acts@.len(),
    ensures
        r == term_legal(active, members@, gene_acts@),
{
    let mut a: usize = 0;
    let mut k: usize = 0;
    while k < members.len()
        invariant
            forall|j: int| 0 <= j < members@.len() ==> #[trigger] members@[j] < gene_acts@.len(),
            k <= members@.len(),
            a == count_active_members(members@, gene_acts@, k as int),
            a <= k,
        decreases members.len() - k,
    {
        if gene_acts[members[k]] {
            a = a + 1;
        }
        k = k + 1;
    }
    if active {
        a > 0
    } else {
        a <= members.len() - a
    }
}

/// Whether a term in state `active` with members `members` is legal once
/// gene `g` has activity `b`.
fn is_legal_term_with(active: bool, members: &Vec<usize>, gene_acts: &Vec<bool>, g: usize, b: bool) -> (r:
    bool)
    requires
        forall|k: int| 0 <= k < members@.len() ==> #[trigger] members@[k] < gene_acts@.len(),
        g < gene_acts@.len(),
    ensures
        r == term_legal(active, members@, gene_acts@.update(g as int, b)),
{
    let ghost ga = gene_acts@.update(g as int, b);
    let mut a: usize = 0;
    let mut k: usize = 0;
    while k < members.len()
        invariant
            forall|j: int| 0 <= j < members@.len() ==> #[trigger] members@[j] < gene_acts@.len(),
            ga == gene_acts@.update(g as int, b),
            g < gene_acts@.len(),
            k <= members@.len(),
            a == count_active_members(members@, ga, k as int),
            a <= k,
        decreases members.len() - k,
    {
        let m = members[k];
        let on = if m == g {
            b
        } else {
            gene_acts[m]
        };
        if on {
            a = a + 1;
        }
        k = k + 1;
    }
    if active {
        a > 0
    } else {
        a <= members.len() - a
    }
}

/// Whether `x` occurs among the first `k` entries of `v`.
fn listed_before(v: &Vec<usize>, k: usize, x: usize) -> (r: bool)
    requires
        k <= v@.len(),
    ensures
        r == exists|j: int| 0 <= j < k && v@[j] == x,
{
    let mut i: usize = 0;
    while i < k
        invariant
            k <= v@.len(),
            i <= k,
            forall|j: int| 0 <= j < i ==> v@[j] != x,
        decreases k - i,
    {
        if v[i] == x {
            return true;
        }
        i = i + 1;
    }
    false
}

impl<Id, Td, Gd> GeneOntology<Id, Td, Gd> {
    /// Counts the terms by activity and legality, over the live activities.
    pub fn whole_counts(&self) -> (r: WholeCounts)
        requires
            self.wf(),
        ensures
            r.of(self.member_lists(), self.term_activity(), self.gene_activity()),
    {
        let gene_acts = self.gene_activities();
        let terms = self.terms();
        let ghost lists = self.member_lists();
        let ghost term_acts = self.term_activity();
        let mut c = WholeCounts { active: 0, inactive: 0, illegal: 0 };
        let mut t: usize = 0;
        while t < terms.len()
            invariant
                self.wf(),
                terms@ == self.term_nodes(),
                gene_acts@ == self.gene_activity(),
                lists == self.member_lists(),
                term_acts == self.term_activity(),
                t <= terms@.len(),
                c.active == count_value(term_acts, true, t as int),
                c.inactive == count_value(term_acts, false, t as int),
                c.illegal == count_illegal(lists, term_acts, gene_acts@, t as int),
                c.active + c.inactive == t,
                c.illegal <= t,
            decreases terms.len() - t,
        {
            let active = terms[t].is_active();
            let members = terms[t].genes();
            proof {
                assert forall|k: int| 0 <= k < members@.len() implies #[trigger] members@[k]
                    < gene_acts@.len() by {
                    assert(self.term_nodes()[t as int].gene_indices()[k] < self.gene_nodes().len());
                }
                assert(lists[t as int] == members@);
                assert(term_acts[t as int] == active);
            }
            if active {
                c.active = c.active + 1;
            } else {
                c.inactive = c.inactive + 1;
            }
            if !is_legal_term(active, members, &gene_acts) {
                c.illegal = c.illegal + 1;
            }
            t = t + 1;
        }
        c
    }

    /// Counts the genes by activity and by the given hits.
    pub fn part_counts_with(&self, hits: &Vec<bool>) -> (r: PartCounts)
        requires
            hits@.len() == self.gene_nodes().len(),
        ensures
            r.of(self.gene_activity(), hits@),
    {
        let acts = self.gene_activities();
        count_part_states(&acts, hits)
    }

    /// The statistics once gene `g` is flipped, from those before: only the
    /// class of `g` and the legality of the terms listing `g` can change.
    pub fn counts_after_gene_flip(
        &self,
        hits: &Vec<bool>,
        gene_acts: &Vec<bool>,
        term_acts: &Vec<bool>,
        before: &LikelihoodCounts,
        g: usize,
    ) -> (r: LikelihoodCounts)
        requires
            self.wf(),
            hits@.len() == self.gene_nodes().len(),
            gene_acts@.len() == self.gene_nodes().len(),
            term_acts@.len() == self.term_nodes().len(),
            g < self.gene_nodes().len(),
            before.of(self.member_lists(), hits@, gene_acts@, term_acts@),
        ensures
            r.of(
                self.member_lists(),
                hits@,
                gene_acts@.update(g as int, !gene_acts@[g as int]),
                term_acts@,
            ),
    {
        let ghost lists = self.member_lists();
        let ghost ga = gene_acts@;
        let ghost ta = term_acts@;
        let ghost n = ga.len() as int;
        let ghost nt = ta.len() as int;
        let a = gene_acts[g];
        let h = hits[g];
        let n_genes = gene_acts.len();
        let n_terms = term_acts.len();
        let ghost ga2 = ga.update(g as int, !a);
        proof {
            lemma_counts_cover_nodes(*before, lists, hits@, ga, ta);
            lemma_count_parts_update(ga, hits@, g as int, !a, true, true, n);
            lemma_count_parts_update(ga, hits@, g as int, !a, true, false, n);
            lemma_count_parts_update(ga, hits@, g as int, !a, false, true, n);
            lemma_count_parts_update(ga, hits@, g as int, !a, false, false, n);
        }
        let mut parts = before.parts;
        if a {
            if h {
                parts.active_hit = parts.active_hit - 1;
                parts.inactive_hit = parts.inactive_hit + 1;
            } else {
                parts.active_miss = parts.active_miss - 1;
                parts.inactive_miss = parts.inactive_miss + 1;
            }
        } else {
            if h {
                parts.inactive_hit = parts.inactive_hit - 1;
                parts.active_hit = parts.active_hit + 1;
            } else {
                parts.inactive_miss = parts.inactive_miss - 1;
                parts.active_miss = parts.active_miss + 1;
            }
        }
        let listed = self.genes()[g].terms();
        let terms = self.terms();
        let mut illegal = before.wholes.illegal;
        let ghost mut seen: Set<int> = Set::empty();
        proof {
            lemma_mixed_none(lists, ta, ga, ta, ga2, nt);
        }
        let mut k: usize = 0;
        while k < listed.len()
            invariant
                self.wf(),
                lists == self.member_lists(),
                terms@ == self.term_nodes(),
                listed@ == self.gene_nodes()[g as int].term_indices(),
                g < self.gene_nodes().len(),
                ga == gene_acts@,
                ta == term_acts@,
                n == ga.len(),
                nt == ta.len(),
                n == self.gene_nodes().len(),
                nt == self.term_nodes().len(),
                a == ga[g as int],
                ga2 == ga.update(g as int, !a),
                k <= listed@.len(),
                illegal == count_mixed(lists, ta, ga, ta, ga2, seen, nt),
                nt == n_terms,
                forall|x: int| #[trigger] seen.contains(x) <==> exists|j: int| 0 <= j < k && listed@[j] == x,
            decreases listed.len() - k,
        {
            let t = listed[k];
            proof {
                assert(self.gene_nodes()[g as int].term_indices()[k as int] < self.term_nodes().len());
            }
            if !listed_before(listed, k, t) {
                let members = terms[t].genes();
                proof {
                    assert forall|j: int| 0 <= j < members@.len() implies #[trigger] members@[j]
                        < gene_acts@.len() by {
                        assert(self.term_nodes()[t as int].gene_indices()[j] < self.gene_nodes().len());
                    }
                    assert(lists[t as int] == members@);
                    assert(!seen.contains(t as int));
                    lemma_mixed_insert(lists, ta, ga, ta, ga2, seen, t as int, nt);
                    lemma_mixed_bound(lists, ta, ga, ta, ga2, seen.insert(t as int), nt);
                }
                let was = !is_legal_term(term_acts[t], members, gene_acts);
                let now = !is_legal_term_with(term_acts[t], members, gene_acts, g, !a);
                if was && !now {
                    illegal = illegal - 1;
                } else if !was && now {
                    illegal = illegal + 1;
                }
                proof {
                    seen = seen.insert(t as int);
                    assert forall|x: int| #[trigger] seen.contains(x) <==> exists|j: int|
                        0 <= j < k + 1 && listed@[j] == x by {
                        if x == t {
                            assert(listed@[k as int] == x);
                        }
                    }
                }
            } else {
                proof {
                    assert forall|x: int| #[trigger] seen.contains(x) <==> exists|j: int|
                        0 <= j < k + 1 && listed@[j] == x by {
                        if x == t {
                            let j = choose|j: int| 0 <= j < k && listed@[j] == t;
                        }
                    }
                }
            }
            k = k + 1;
        }
        proof {
            assert forall|t: int| 0 <= t < nt && !seen.contains(t) implies illegal_at(
                lists,
                ta,
                ga2,
                t,
            ) == illegal_at(lists, ta, ga, t) by {
                let members = lists[t];
                assert(members == self.term_nodes()[t].gene_indices());
                assert forall|j: int| 0 <= j < members.len() implies members[j] != g by {
                    if members[j] == g {
                        let tu = t as usize;
                        assert(tu as int == t);
                        assert(self.term_nodes()[tu as int].gene_indices()[j] == g);
                        assert(self.term_nodes()[tu as int].gene_indices().contains(g));
                        assert(self.gene_nodes()[g as int].term_indices().contains(tu));
                        let i = choose|i: int|
                            0 <= i < listed@.len() && self.gene_nodes()[g as int].term_indices()[i]
                                == tu;
                        assert(listed@[i] == t);
                    }
                }
                assert forall|j: int| 0 <= j < members.len() implies #[trigger] members[j] < ga.len() by {
                    assert(self.term_nodes()[t].gene_indices()[j] < self.gene_nodes().len());
                }
                lemma_active_members_other(members, ga, g as int, !a, members.len() as int);
            }
            lemma_mixed_all(lists, ta, ga, ta, ga2, seen, nt);
        }
        LikelihoodCounts {
            parts,
            wholes: WholeCounts {
                active: before.wholes.active,
                inactive: before.wholes.inactive,
                illegal,
            },
        }
    }

    /// The statistics once term `t` is flipped, from those before: only the
    /// class and the legality of `t` can change.
    pub fn counts_after_term_flip(
        &self,
        hits: &Vec<bool>,
        gene_acts: &Vec<bool>,
        term_acts: &Vec<bool>,
        before: &LikelihoodCounts,
        t: usize,
    ) -> (r: LikelihoodCounts)
        requires
            self.wf(),
            hits@.len() == self.gene_nodes().len(),
            gene_acts@.len() == self.gene_nodes().len(),
            term_acts@.len() == self.term_nodes().len(),
            t < self.term_nodes().len(),
            before.of(self.member_lists(), hits@, gene_acts@, term_acts@),
        ensures
            r.of(
                self.member_lists(),
                hits@,
                gene_acts@,
                term_acts@.update(t as int, !term_acts@[t as int]),
            ),
    {
        let ghost lists = self.member_lists();
        let ghost ga = gene_acts@;
        let ghost ta = term_acts@;
        let ghost nt = ta.len() as int;
        let a = term_acts[t];
        let n_terms = term_acts.len();
        let ghost ta2 = ta.update(t as int, !a);
        let members = self.terms()[t].genes();
        proof {
            assert forall|j: int| 0 <= j < members@.len() implies #[trigger] members@[j]
                < gene_acts@.len() by {
                assert(self.term_nodes()[t as int].gene_indices()[j] < self.gene_nodes().len());
            }
            assert(lists[t as int] == members@);
            lemma_counts_cover_nodes(*before, lists, hits@, ga, ta);
            lemma_count_value_update(ta, t as int, !a, true, nt);
            lemma_count_value_update(ta, t as int, !a, false, nt);
            lemma_mixed_none(lists, ta, ga, ta2, ga, nt);
            lemma_mixed_insert(lists, ta, ga, ta2, ga, Set::empty(), t as int, nt);
            lemma_mixed_bound(lists, ta, ga, ta2, ga, Set::empty().insert(t as int), nt);
            assert forall|u: int|
                0 <= u < nt && !Set::empty().insert(t as int).contains(u) implies illegal_at(
                lists,
                ta2,
                ga,
                u,
            ) == illegal_at(lists, ta, ga, u) by {
                assert(ta2[u] == ta[u]);
            }
            lemma_mixed_all(lists, ta, ga, ta2, ga, Set::empty().insert(t as int), nt);
        }
        let mut wholes = before.wholes;
        if a {
            wholes.active = wholes.active - 1;
            wholes.inactive = wholes.inactive + 1;
        } else {
            wholes.inactive = wholes.inactive - 1;
            wholes.active = wholes.active + 1;
        }
        let was = !is_legal_term(a, members, gene_acts);
        let now = !is_legal_term(!a, members, gene_acts);
        if was && !now {
            wholes.illegal = wholes.illegal - 1;
        } else if !was && now {
            wholes.illegal = wholes.illegal + 1;
        }
        LikelihoodCounts { parts: before.parts, wholes }
    }

    /// Whether term `t` is legal in the live activity state.
    pub fn term_is_legal(&self, t: usize) -> (r: bool)
        requires
            self.wf(),
            t < self.term_nodes().len(),
        ensures
            r == term_legal(self.term_activity()[t as int], self.member_lists()[t as int], self.gene_activity()),
    {
        let genes = self.genes();
        let members = self.terms()[t].genes();
        let ghost ga = self.gene_activity();
        let mut a: usize = 0;
        let mut k: usize = 0;
        while k < members.len()
            invariant
                self.wf(),
                t < self.term_nodes().len(),
                genes@ == self.gene_nodes(),
                ga == self.gene_activity(),
                members@ == self.term_nodes()[t as int].gene_indices(),
                k <= members@.len(),
                a == count_active_members(members@, ga, k as int),
                a <= k,
            decreases members.len() - k,
        {
            let g = members[k];
            proof {
                assert(self.term_nodes()[t as int].gene_indices()[k as int] < self.gene_nodes().len());
            }
            if genes[g].is_active() {
                a = a + 1;
            }
            k = k + 1;
        }
        if self.terms()[t].is_active() {
            a > 0
        } else {
            a <= members.len() - a
        }
    }

    /// All counts, with the given hits.
    pub fn likelihood_counts_with(&self, hits: &Vec<bool>) -> (r: LikelihoodCounts)
        requires
            self.wf(),
            hits@.len() == self.gene_nodes().len(),
        ensures
            r.of(self.member_lists(), hits@, self.gene_activity(), self.term_activity()),
    {
        LikelihoodCounts { parts: self.part_counts_with(hits), wholes: self.whole_counts() }
    }
}

impl<Id, Td, Gd: Observation> GeneOntology<Id, Td, Gd> {
    /// The reading of every gene's observation, where each reads.
    pub open spec fn observations(&self) -> Seq<Option<bool>> {
        Seq::new(self.gene_nodes().len(), |i: int| self.gene_nodes()[i].data_spec().hit_spec())
    }

    /// Every gene's observation reads as a hit or a miss.
    pub open spec fn observations_valid(&self) -> bool {
        forall|i: int| 0 <= i < self.gene_nodes().len() ==> #[trigger] self.observations()[i] is Some
    }

    /// The hit of every gene, by index.
    pub open spec fn hits(&self) -> Seq<bool> {
        Seq::new(self.gene_nodes().len(), |i: int| self.observations()[i]->0)
    }

    /// Reads every gene's observation as a hit or a miss; fails at the first
    /// gene whose observation is neither.
    pub fn observed_hits(&self) -> (r: Result<Vec<bool>, LikelihoodError>)
        ensures
            r is Ok <==> self.observations_valid(),
            r matches Ok(v) ==> v@ == self.hits(),
            r matches Err(LikelihoodError::InvalidObservation { gene }) ==> {
                &&& gene < self.gene_nodes().len()
                &&& self.observations()[gene as int] is None
                &&& forall|i: int| 0 <= i < gene ==> #[trigger] self.observations()[i] is Some
            },
    {
        let genes = self.genes();
        let mut v: Vec<bool> = Vec::new();
        let mut i: usize = 0;
        while i < genes.len()
            invariant
                genes@ == self.gene_nodes(),
                i <= genes@.len(),
                v@.len() == i,
                forall|j: int| 0 <= j < i ==> #[trigger] self.observations()[j] is Some,
                forall|j: int| 0 <= j < i ==> v@[j] == #[trigger] self.hits()[j],
            decreases genes.len() - i,
        {
            match genes[i].data().try_into_bool() {
                Some(b) => {
                    v.push(b);
                },
                None => {
                    return Err(LikelihoodError::InvalidObservation { gene: i });
                },
            }
            i = i + 1;
        }
        proof {
            assert(v@ =~= self.hits());
        }
        Ok(v)
    }

    /// The statistics of the parts' log-likelihood: genes counted by live
    /// activity and observed hit. Fails when an observation is neither a hit
    /// nor a miss.
    pub fn part_counts(&self) -> (r: Result<PartCounts, LikelihoodError>)
        ensures
            r is Ok <==> self.observations_valid(),
            r matches Ok(c) ==> c.of(self.gene_activity(), self.hits()),
            r matches Err(LikelihoodError::InvalidObservation { gene }) ==> {
                &&& gene < self.gene_nodes().len()
                &&& self.observations()[gene as int] is None
                &&& forall|i: int| 0 <= i < gene ==> #[trigger] self.observations()[i] is Some
            },
    {
        match self.observed_hits() {
            Ok(hits) => Ok(self.part_counts_with(&hits)),
            Err(e) => Err(e),
        }
    }

    /// The statistics of the total data log-likelihood: those of the parts
    /// and those of the wholes.
    pub fn likelihood_counts(&self) -> (r: Result<LikelihoodCounts, LikelihoodError>)
        requires
            self.wf(),
        ensures
            r is Ok <==> self.observations_valid(),
            r matches Ok(c) ==> c.of(
                self.member_lists(),
                self.hits(),
                self.gene_activity(),
                self.term_activity(),
            ),
            r matches Err(LikelihoodError::InvalidObservation { gene }) ==> {
                &&& gene < self.gene_nodes().len()
                &&& self.observations()[gene as int] is None
                &&& forall|i: int| 0 <= i < gene ==> #[trigger] self.observations()[i] is Some
            },
    {
        match self.part_counts() {
            Ok(parts) => Ok(LikelihoodCounts { parts, wholes: self.whole_counts() }),
            Err(e) => Err(e),
        }
    }
}

} // verus!

use vstd::prelude::*;
use itertools::Itertools;
use crate::gene_ontology::{members_of_term, terms_of_gene, GeneOntology};
use crate::saveable::SaveableData;

verus! {

/// The elements of `s`, each once, in the order in which each first occurs.
pub open spec fn first_occurrences<T>(s: Seq<T>) -> Seq<T>
    decreases s.len(),
{
    if s.len() == 0 {
        Seq::empty()
    } else {
        let r = first_occurrences(s.drop_last());
        if r.contains(s.last()) {
            r
        } else {
            r.push(s.last())
        }
    }
}

/// The records of `s` whose name has not occurred before, in order.
pub open spec fn first_records<D>(s: Seq<(Seq<char>, D)>) -> Seq<(Seq<char>, D)>
    decreases s.len(),
{
    if s.len() == 0 {
        Seq::empty()
    } else {
        let r = first_records(s.drop_last());
        if names_of(r).contains(s.last().0) {
            r
        } else {
            r.push(s.last())
        }
    }
}

/// The names of a sequence of records.
pub open spec fn names_of<D>(s: Seq<(Seq<char>, D)>) -> Seq<Seq<char>> {
    Seq::new(s.len(), |i: int| s[i].0)
}

/// The contents of a sequence of strings.
pub open spec fn string_views(v: Seq<String>) -> Seq<Seq<char>> {
    Seq::new(v.len(), |i: int| v[i]@)
}

/// The contents of a sequence of named records.
pub open spec fn record_views<D>(v: Seq<(String, D)>) -> Seq<(Seq<char>, D)> {
    Seq::new(v.len(), |i: int| (v[i].0@, v[i].1))
}

/// Positions of names: each name held maps to one index.
#[verifier::external_body]
pub struct NameIndex {
    map: hashbrown::HashMap<String, usize>,
}

/// What a name index holds.
pub uninterp spec fn name_positions(m: NameIndex) -> Map<Seq<char>, usize>;

impl NameIndex {
    /// Relies on hashbrown's `HashMap::new`: the map starts empty.
    #[verifier::external_body]
    fn empty() -> (r: NameIndex)
        ensures
            name_positions(r).is_empty(),
    {
        NameIndex { map: hashbrown::HashMap::new() }
    }

    /// Relies on hashbrown's `HashMap::insert`: afterwards the name maps to
    /// the index, and every other entry is kept.
    #[verifier::external_body]
    fn insert(&mut self, name: String, index: usize)
        ensures
            name_positions(*final(self)) == name_positions(*old(self)).insert(name@, index),
    {
        self.map.insert(name, index);
    }

    /// Relies on hashbrown's `HashMap::get`: the index the name maps to, if
    /// the map holds the name.
    #[verifier::external_body]
    fn lookup(&self, name: &String) -> (r: Option<usize>)
        ensures
            name_positions(*self).contains_key(name@) ==> r == Some(name_positions(*self)[name@]),
            !name_positions(*self).contains_key(name@) ==> r is None,
    {
        self.map.get(name).copied()
    }
}

/// The names map to their positions: each name of `names` to its index, and
/// nothing else is held.
pub open spec fn indexes(m: Map<Seq<char>, usize>, names: Seq<Seq<char>>) -> bool {
    &&& forall|k: Seq<char>| #[trigger] m.contains_key(k) <==> names.contains(k)
    &&& forall|i: int| 0 <= i < names.len() ==> #[trigger] m[names[i]] == i
}

/// Records kept once per name, and the repeats that were skipped: for each,
/// its position among the records given and the position of the kept record
/// of the same name.
pub struct KeptRecords<D> {
    records: Vec<(String, D)>,
    index: NameIndex,
    repeats: Vec<(usize, usize)>,
}

impl<D> KeptRecords<D> {
    /// The index holds exactly the kept names, each at its position.
    #[verifier::type_invariant]
    closed spec fn inv(&self) -> bool {
        indexes(name_positions(self.index), names_of(record_views(self.records@)))
    }

    pub closed spec fn records_spec(&self) -> Seq<(String, D)> {
        self.records@
    }

    pub closed spec fn repeats_spec(&self) -> Seq<(usize, usize)> {
        self.repeats@
    }

    pub closed spec fn positions(&self) -> Map<Seq<char>, usize> {
        name_positions(self.index)
    }

    pub fn records(&self) -> (r: &Vec<(String, D)>)
        ensures
            r@ == self.records_spec(),
    {
        &self.records
    }

    pub fn repeats(&self) -> (r: &Vec<(usize, usize)>)
        ensures
            r@ == self.repeats_spec(),
    {
        &self.repeats
    }

    /// The position of the kept record named `name`, if there is one.
    pub fn position(&self, name: &String) -> (r: Option<usize>)
        ensures
            self.positions().contains_key(name@) ==> r == Some(self.positions()[name@]),
            !self.positions().contains_key(name@) ==> r is None,
    {
        self.index.lookup(name)
    }

    fn into_parts(self) -> (r: (Vec<(String, D)>, NameIndex))
        ensures
            r.0@ == self.records_spec(),
            name_positions(r.1) == self.positions(),
            indexes(self.positions(), names_of(record_views(self.records_spec()))),
    {
        proof {
            use_type_invariant(&self);
        }
        (self.records, self.index)
    }
}

/// The same elements in reverse order.
fn reversed<T>(v: Vec<T>) -> (r: Vec<T>)
    ensures
        r@.len() == v@.len(),
        forall|i: int| 0 <= i < v@.len() ==> #[trigger] r@[i] == v@[v@.len() - 1 - i],
{
    let ghost orig = v@;
    let n = v.len();
    let mut v = v;
    let mut r: Vec<T> = Vec::new();
    while v.len() > 0
        invariant
            v@.len() + r@.len() == n,
            n == orig.len(),
            forall|i: int| 0 <= i < v@.len() ==> #[trigger] v@[i] == orig[i],
            forall|i: int| 0 <= i < r@.len() ==> #[trigger] r@[i] == orig[n - 1 - i],
        decreases v.len(),
    {
        let x = v.pop().unwrap();
        r.push(x);
    }
    r
}

/// Keeps the first record of every name, in order, with the index of the
/// kept names; a later record of a name already kept is skipped and listed
/// among the repeats.
pub fn keep_first_records<D>(records: Vec<(String, D)>) -> (r: KeptRecords<D>)
    ensures
        record_views(r.records_spec()) == first_records(record_views(records@)),
        indexes(r.positions(), names_of(record_views(r.records_spec()))),
        forall|k: int|
            0 <= k < r.repeats_spec().len() ==> {
                let (at, first) = #[trigger] r.repeats_spec()[k];
                &&& at < records@.len()
                &&& first < r.records_spec().len()
                &&& r.records_spec()[first as int].0@ == records@[at as int].0@
            },
{
    let ghost given = record_views(records@);
    let n = records.len();
    let mut pending = reversed(records);
    let mut kept: Vec<(String, D)> = Vec::new();
    let mut index = NameIndex::empty();
    let mut repeats: Vec<(usize, usize)> = Vec::new();
    let mut at: usize = 0;
    proof {
        assert(given.take(0) =~= Seq::<(Seq<char>, D)>::empty());
        assert(names_of(record_views(kept@)) =~= Seq::<Seq<char>>::empty());
    }
    while pending.len() > 0
        invariant
            n == given.len(),
            at + pending@.len() == n,
            forall|i: int|
                0 <= i < pending@.len() ==> (#[trigger] pending@[i].0@, pending@[i].1)
                    == given[n - 1 - i],
            record_views(kept@) == first_records(given.take(at as int)),
            indexes(name_positions(index), names_of(record_views(kept@))),
            forall|k: int|
                0 <= k < repeats@.len() ==> {
                    let (a, first) = #[trigger] repeats@[k];
                    &&& a < n
                    &&& first < kept@.len()
                    &&& kept@[first as int].0@ == given[a as int].0
                },
        decreases pending.len(),
    {
        let ghost prefix = given.take(at as int);
        let (name, data) = pending.pop().unwrap();
        proof {
            assert(given.take(at + 1).drop_last() =~= prefix);
            assert(given.take(at + 1).last() == (name@, data));
        }
        match index.lookup(&name) {
            Some(first) => {
                proof {
                    let names = names_of(record_views(kept@));
                    let i = choose|i: int| 0 <= i < names.len() && names[i] == name@;
                    assert(name_positions(index)[names[i]] == i);
                }
                repeats.push((at, first));
            },
            None => {
                let ghost before = kept@;
                let ghost map_before = name_positions(index);
                let pos = kept.len();
                index.insert(name.clone(), pos);
                kept.push((name, data));
                proof {
                    let old_names = names_of(record_views(before));
                    let new_names = old_names.push(given[at as int].0);
                    assert(!old_names.contains(name@));
                    assert forall|k: Seq<char>| #[trigger]
                        name_positions(index).contains_key(k) <==> new_names.contains(k) by {
                        if old_names.contains(k) {
                            let i = choose|i: int| 0 <= i < old_names.len() && old_names[i] == k;
                            assert(new_names[i] == k);
                        }
                        if new_names.contains(k) && k != name@ {
                            let i = choose|i: int| 0 <= i < new_names.len() && new_names[i] == k;
                            assert(old_names[i] == k);
                        }
                        if k == name@ {
                            assert(new_names[old_names.len() as int] == k);
                        }
                    }
                    assert forall|i: int| 0 <= i < new_names.len() implies #[trigger] name_positions(
                        index,
                    )[new_names[i]] == i by {
                        if i < old_names.len() {
                            assert(new_names[i] == old_names[i]);
                            assert(old_names.contains(old_names[i]));
                        }
                    }
                    assert(record_views(kept@) =~= record_views(before).push(given[at as int]));
                    assert(names_of(record_views(kept@)) =~= names_of(record_views(before)).push(
                        given[at as int].0,
                    ));
                }
            },
        }
        at = at + 1;
    }
    proof {
        assert(given.take(n as int) =~= given);
    }
    KeptRecords { records: kept, index, repeats }
}

/// Why named records and edges could not be assembled into a graph.
#[derive(Clone, Copy, Debug, PartialEq, Eq, Structural)]
pub enum LoadError {
    /// This edge names a term that no term record has.
    UnknownTerm { edge: usize },
    /// This edge names a gene that no gene record has.
    UnknownGene { edge: usize },
}

proof fn lemma_first_occurrences<T>(s: Seq<T>)
    ensures
        forall|x: T| #[trigger] first_occurrences(s).contains(x) <==> s.contains(x),
        first_occurrences(s).no_duplicates(),
    decreases s.len(),
{
    if s.len() > 0 {
        let init = s.drop_last();
        lemma_first_occurrences(init);
        let r = first_occurrences(init);
        assert(s =~= init.push(s.last()));
        assert forall|x: T| #[trigger] first_occurrences(s).contains(x) <==> s.contains(x) by {
            if init.contains(x) {
                let i = choose|i: int| 0 <= i < init.len() && init[i] == x;
                assert(s[i] == x);
            }
            if s.contains(x) && x != s.last() {
                let i = choose|i: int| 0 <= i < s.len() && s[i] == x;
                assert(init[i] == x);
            }
            if !r.contains(s.last()) {
                let f = r.push(s.last());
                assert(f[r.len() as int] == s.last());
                if r.contains(x) {
                    let i = choose|i: int| 0 <= i < r.len() && r[i] == x;
                    assert(f[i] == x);
                }
                if f.contains(x) && x != s.last() {
                    let i = choose|i: int| 0 <= i < f.len() && f[i] == x;
                    assert(r[i] == x);
                }
            }
            if s.last() == x {
                assert(s[s.len() - 1] == x);
            }
        }
    }
}

/// Relies on itertools' `Itertools::unique`: the items, each once, in the
/// order in which each first occurs.
#[verifier::external_body]
fn unique_names(names: &Vec<String>) -> (r: Vec<String>)
    ensures
        string_views(r@) == first_occurrences(string_views(names@)),
{
    names.iter().cloned().unique().collect()
}

/// An index of distinct names: each maps to its position.
fn index_distinct(names: &Vec<String>) -> (r: NameIndex)
    requires
        string_views(names@).no_duplicates(),
    ensures
        indexes(name_positions(r), string_views(names@)),
{
    let ghost all = string_views(names@);
    let mut index = NameIndex::empty();
    let mut i: usize = 0;
    while i < names.len()
        invariant
            all == string_views(names@),
            all.no_duplicates(),
            i <= names@.len(),
            indexes(name_positions(index), all.take(i as int)),
        decreases names.len() - i,
    {
        let ghost before = all.take(i as int);
        index.insert(names[i].clone(), i);
        proof {
            let after = all.take(i + 1);
            assert(after =~= before.push(all[i as int]));
            assert(!before.contains(all[i as int])) by {
                if before.contains(all[i as int]) {
                    let j = choose|j: int| 0 <= j < before.len() && before[j] == all[i as int];
                    assert(all[j] == all[i as int]);
                }
            }
            assert forall|k: Seq<char>| #[trigger]
                name_positions(index).contains_key(k) <==> after.contains(k) by {
                if before.contains(k) {
                    let j = choose|j: int| 0 <= j < before.len() && before[j] == k;
                    assert(after[j] == k);
                }
                if after.contains(k) && k != all[i as int] {
                    let j = choose|j: int| 0 <= j < after.len() && after[j] == k;
                    assert(before[j] == k);
                }
                if k == all[i as int] {
                    assert(after[i as int] == k);
                }
            }
            assert forall|j: int| 0 <= j < after.len() implies #[trigger] name_positions(index)[after[j]]
                == j by {
                if j < i {
                    assert(after[j] == before[j]);
                    assert(before.contains(before[j]));
                }
            }
        }
        i = i + 1;
    }
    proof {
        assert(all.take(names@.len() as int) =~= all);
    }
    index
}

/// One record per distinct name, in order of first occurrence, each with
/// the same data; with the index of the names.
pub fn records_for_names<D: Copy>(names: &Vec<String>, data: D) -> (r: KeptRecords<D>)
    ensures
        names_of(record_views(r.records_spec())) == first_occurrences(string_views(names@)),
        forall|i: int| 0 <= i < r.records_spec().len() ==> #[trigger] r.records_spec()[i].1 == data,
        indexes(r.positions(), names_of(record_views(r.records_spec()))),
        r.repeats_spec().len() == 0,
{
    let distinct = unique_names(names);
    proof {
        lemma_first_occurrences(string_views(names@));
    }
    let index = index_distinct(&distinct);
    let mut records: Vec<(String, D)> = Vec::new();
    let mut i: usize = 0;
    while i < distinct.len()
        invariant
            i <= distinct@.len(),
            records@.len() == i,
            forall|j: int| 0 <= j < i ==> #[trigger] records@[j].0@ == distinct@[j]@,
            forall|j: int| 0 <= j < i ==> #[trigger] records@[j].1 == data,
        decreases distinct.len() - i,
    {
        let name = distinct[i].clone();
        let ghost before = records@;
        records.push((name, data));
        proof {
            assert(records@[i as int].0@ == distinct@[i as int]@);
            assert forall|j: int| 0 <= j < i implies #[trigger] records@[j].0@ == distinct@[j]@ by {
                assert(records@[j] == before[j]);
                assert(before[j].0@ == distinct@[j]@);
            }
        }
        i = i + 1;
    }
    proof {
        assert(names_of(record_views(records@)) =~= string_views(distinct@));
    }
    KeptRecords { records, index, repeats: Vec::new() }
}

/// The term names of the edges, in edge order.
pub fn edge_term_names(adj: &Vec<(String, String)>) -> (r: Vec<String>)
    ensures
        string_views(r@) == Seq::new(adj@.len(), |k: int| adj@[k].0@),
{
    let mut r: Vec<String> = Vec::new();
    let mut k: usize = 0;
    while k < adj.len()
        invariant
            k <= adj@.len(),
            r@.len() == k,
            forall|j: int| 0 <= j < k ==> #[trigger] r@[j]@ == adj@[j].0@,
        decreases adj.len() - k,
    {
        r.push(adj[k].0.clone());
        k = k + 1;
    }
    proof {
        assert(string_views(r@) =~= Seq::new(adj@.len(), |k: int| adj@[k].0@));
    }
    r
}

/// The gene names of the edges, in edge order.
pub fn edge_gene_names(adj: &Vec<(String, String)>) -> (r: Vec<String>)
    ensures
        string_views(r@) == Seq::new(adj@.len(), |k: int| adj@[k].1@),
{
    let mut r: Vec<String> = Vec::new();
    let mut k: usize = 0;
    while k < adj.len()
        invariant
            k <= adj@.len(),
            r@.len() == k,
            forall|j: int| 0 <= j < k ==> #[trigger] r@[j]@ == adj@[j].1@,
        decreases adj.len() - k,
    {
        r.push(adj[k].1.clone());
        k = k + 1;
    }
    proof {
        assert(string_views(r@) =~= Seq::new(adj@.len(), |k: int| adj@[k].1@));
    }
    r
}

/// Both the term and the gene of edge `k` are held by the position maps.
pub open spec fn edge_known(
    adj: Seq<(String, String)>,
    terms: Map<Seq<char>, usize>,
    genes: Map<Seq<char>, usize>,
    k: int,
) -> bool {
    terms.contains_key(adj[k].0@) && genes.contains_key(adj[k].1@)
}

/// The edges as `(term index, gene index)` pairs.
pub open spec fn resolved_edges(
    adj: Seq<(String, String)>,
    terms: Map<Seq<char>, usize>,
    genes: Map<Seq<char>, usize>,
) -> Seq<(usize, usize)> {
    Seq::new(adj.len(), |k: int| (terms[adj[k].0@], genes[adj[k].1@]))
}

/// Resolves each named edge `(term name, gene name)` to indices. Fails at
/// the first edge whose term, or else whose gene, is not held.
pub fn resolve_edges<Td, Gd>(
    adj: &Vec<(String, String)>,
    terms: &KeptRecords<Td>,
    genes: &KeptRecords<Gd>,
) -> (r: Result<Vec<(usize, usize)>, LoadError>)
    ensures
        r is Ok <==> forall|k: int|
            0 <= k < adj@.len() ==> #[trigger] edge_known(
                adj@,
                terms.positions(),
                genes.positions(),
                k,
            ),
        r matches Ok(v) ==> v@ == resolved_edges(adj@, terms.positions(), genes.positions()),
        r matches Err(LoadError::UnknownTerm { edge }) ==> {
            &&& edge < adj@.len()
            &&& !terms.positions().contains_key(adj@[edge as int].0@)
            &&& forall|k: int|
                0 <= k < edge ==> #[trigger] edge_known(
                    adj@,
                    terms.positions(),
                    genes.positions(),
                    k,
                )
        },
        r matches Err(LoadError::UnknownGene { edge }) ==> {
            &&& edge < adj@.len()
            &&& terms.positions().contains_key(adj@[edge as int].0@)
            &&& !genes.positions().contains_key(adj@[edge as int].1@)
            &&& forall|k: int|
                0 <= k < edge ==> #[trigger] edge_known(
                    adj@,
                    terms.positions(),
                    genes.positions(),
                    k,
                )
        },
{
    let ghost tm = terms.positions();
    let ghost gm = genes.positions();
    let mut v: Vec<(usize, usize)> = Vec::new();
    let mut k: usize = 0;
    while k < adj.len()
        invariant
            tm == terms.positions(),
            gm == genes.positions(),
            k <= adj@.len(),
            v@.len() == k,
            forall|j: int| 0 <= j < k ==> #[trigger] edge_known(adj@, tm, gm, j),
            forall|j: int| 0 <= j < k ==> #[trigger] v@[j] == (tm[adj@[j].0@], gm[adj@[j].1@]),
        decreases adj.len() - k,
    {
        let t = match terms.position(&adj[k].0) {
            Some(t) => t,
            None => {
                proof {
                    assert(!edge_known(adj@, tm, gm, k as int));
                }
                return Err(LoadError::UnknownTerm { edge: k });
            },
        };
        let g = match genes.position(&adj[k].1) {
            Some(g) => g,
            None => {
                proof {
                    assert(!edge_known(adj@, tm, gm, k as int));
                }
                return Err(LoadError::UnknownGene { edge: k });
            },
        };
        v.push((t, g));
        k = k + 1;
    }
    proof {
        assert(v@ =~= resolved_edges(adj@, tm, gm));
    }
    Ok(v)
}

/// A set of index pairs.
#[verifier::external_body]
pub struct PairSet {
    set: hashbrown::HashSet<(usize, usize)>,
}

/// What a pair set holds.
pub uninterp spec fn pair_set_contents(s: PairSet) -> Set<(usize, usize)>;

impl PairSet {
    /// Relies on hashbrown's `HashSet::new`: the set starts empty.
    #[verifier::external_body]
    fn empty() -> (r: PairSet)
        ensures
            pair_set_contents(r).is_empty(),
    {
        PairSet { set: hashbrown::HashSet::new() }
    }

    /// Relies on hashbrown's `HashSet::insert`: afterwards the set holds the
    /// pair, and the result says whether it was absent before.
    #[verifier::external_body]
    fn insert(&mut self, p: (usize, usize)) -> (r: bool)
        ensures
            pair_set_contents(*final(self)) == pair_set_contents(*old(self)).insert(p),
            r == !pair_set_contents(*old(self)).contains(p),
    {
        self.set.insert(p)
    }
}

/// The edges, each once, in order of first occurrence.
pub fn distinct_edges(adj: &Vec<(usize, usize)>) -> (r: Vec<(usize, usize)>)
    ensures
        r@ == first_occurrences(adj@),
{
    let mut seen = PairSet::empty();
    let mut r: Vec<(usize, usize)> = Vec::new();
    let mut k: usize = 0;
    proof {
        assert(adj@.take(0) =~= Seq::<(usize, usize)>::empty());
    }
    while k < adj.len()
        invariant
            k <= adj@.len(),
            r@ == first_occurrences(adj@.take(k as int)),
            forall|p: (usize, usize)| #[trigger]
                pair_set_contents(seen).contains(p) <==> r@.contains(p),
        decreases adj.len() - k,
    {
        let ghost before = r@;
        let p = adj[k];
        proof {
            assert(adj@.take(k + 1).drop_last() =~= adj@.take(k as int));
            assert(adj@.take(k + 1).last() == p);
        }
        if seen.insert(p) {
            r.push(p);
            proof {
                assert forall|q: (usize, usize)| #[trigger]
                    pair_set_contents(seen).contains(q) <==> r@.contains(q) by {
                    if before.contains(q) {
                        let i = choose|i: int| 0 <= i < before.len() && before[i] == q;
                        assert(r@[i] == q);
                    }
                    if r@.contains(q) && q != p {
                        let i = choose|i: int| 0 <= i < r@.len() && r@[i] == q;
                        assert(before[i] == q);
                    }
                    if q == p {
                        assert(r@[before.len() as int] == q);
                    }
                }
            }
        }
        k = k + 1;
    }
    proof {
        assert(adj@.take(adj@.len() as int) =~= adj@);
    }
    r
}

/// Assembles the graph of named records and named edges: each edge
/// `(term name, gene name)` is resolved to indices through the kept records,
/// the resolved edges are kept once each in order of first occurrence, and
/// the graph is built from them. Fails at the first edge whose term, or else
/// whose gene, has no record.
pub fn assemble<Td, Gd>(genes: KeptRecords<Gd>, terms: KeptRecords<Td>, adj: &Vec<(String, String)>) -> (r:
    Result<GeneOntology<String, Td, Gd>, LoadError>)
    ensures
        r is Ok <==> forall|k: int|
            0 <= k < adj@.len() ==> #[trigger] edge_known(
                adj@,
                terms.positions(),
                genes.positions(),
                k,
            ),
        r matches Err(LoadError::UnknownTerm { edge }) ==> {
            &&& edge < adj@.len()
            &&& !terms.positions().contains_key(adj@[edge as int].0@)
            &&& forall|k: int|
                0 <= k < edge ==> #[trigger] edge_known(adj@, terms.positions(), genes.positions(), k)
        },
        r matches Err(LoadError::UnknownGene { edge }) ==> {
            &&& edge < adj@.len()
            &&& terms.positions().contains_key(adj@[edge as int].0@)
            &&& !genes.positions().contains_key(adj@[edge as int].1@)
            &&& forall|k: int|
                0 <= k < edge ==> #[trigger] edge_known(adj@, terms.positions(), genes.positions(), k)
        },
        r matches Ok(g) ==> {
            let edges = first_occurrences(
                resolved_edges(adj@, terms.positions(), genes.positions()),
            );
            &&& g.wf()
            &&& g.gene_nodes().len() == genes.records_spec().len()
            &&& g.term_nodes().len() == terms.records_spec().len()
            &&& forall|i: int|
                #![trigger g.gene_nodes()[i]]
                0 <= i < genes.records_spec().len() ==> {
                    &&& g.gene_nodes()[i].id_of() == genes.records_spec()[i].0
                    &&& g.gene_nodes()[i].data_of() == genes.records_spec()[i].1
                    &&& g.gene_nodes()[i].term_indices() == terms_of_gene(edges, i)
                    &&& g.gene_nodes()[i].activity_spec() == (SaveableData {
                        current: false,
                        saved: false,
                    })
                }
            &&& forall|j: int|
                #![trigger g.term_nodes()[j]]
                0 <= j < terms.records_spec().len() ==> {
                    &&& g.term_nodes()[j].id_of() == terms.records_spec()[j].0
                    &&& g.term_nodes()[j].data_of() == terms.records_spec()[j].1
                    &&& g.term_nodes()[j].gene_indices() == members_of_term(edges, j)
                    &&& g.term_nodes()[j].activity_spec() == (SaveableData {
                        current: false,
                        saved: false,
                    })
                }
        },
{
    let ghost gm = genes.positions();
    let ghost tm = terms.positions();
    let ghost gene_names = names_of(record_views(genes.records_spec()));
    let ghost term_names = names_of(record_views(terms.records_spec()));
    let resolved = match resolve_edges(adj, &terms, &genes) {
        Ok(v) => v,
        Err(e) => {
            return Err(e);
        },
    };
    let (gene_records, _) = genes.into_parts();
    let (term_records, _) = terms.into_parts();
    let edges = distinct_edges(&resolved);
    proof {
        lemma_first_occurrences(resolved@);
        assert forall|k: int| 0 <= k < edges@.len() implies #[trigger] edges@[k].0
            < term_records@.len() && edges@[k].1 < gene_records@.len() by {
            assert(first_occurrences(resolved@).contains(edges@[k]));
            let j = choose|j: int| 0 <= j < resolved@.len() && resolved@[j] == edges@[k];
            assert(edge_known(adj@, tm, gm, j));
            let t = adj@[j].0@;
            let g = adj@[j].1@;
            let ti = choose|i: int| 0 <= i < term_names.len() && term_names[i] == t;
            let gi = choose|i: int| 0 <= i < gene_names.len() && gene_names[i] == g;
            assert(tm[term_names[ti]] == ti);
            assert(gm[gene_names[gi]] == gi);
        }
    }
    match GeneOntology::from_incidence(gene_records, term_records, edges) {
        Ok(g) => Ok(g),
        Err(_) => {
            // Every resolved edge names a kept record, so the build succeeds.
            proof {
                assert(false);
            }
            Err(LoadError::UnknownTerm { edge: 0 })
        },
    }
}

} // verus!

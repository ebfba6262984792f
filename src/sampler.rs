use vstd::prelude::*;
use crate::gene_ontology::GeneOntology;
use crate::likelihood::{LikelihoodCounts, LikelihoodError};
use crate::observation::Observation;
use crate::saveable::SaveableData;

verus! {

/// Why a sampler could not be set up.
#[derive(Clone, Copy, Debug, PartialEq, Eq, Structural)]
pub enum SamplerError {
    /// The run parameters are unusable: no sample was asked for.
    NotConfigured,
    /// The observation of this gene is neither a hit nor a miss.
    InvalidObservation { gene: usize },
}

/// Decides proposals: whether a proposed flip of one node is kept.
///
/// The decision may use anything, chance included; the sampler is correct
/// whatever it answers.
pub trait ProposalJudge {
    /// Keep the flip, given the statistics of the state before it and of
    /// the state with the flip applied.
    fn accept(&mut self, before: &LikelihoodCounts, after: &LikelihoodCounts) -> bool;
}

/// A recorded state of the chain: every node's activity and the statistics
/// of the total log-likelihood there.
#[derive(Clone, Debug, PartialEq, Eq)]
pub struct Sample {
    pub gene_activity: Vec<bool>,
    pub term_activity: Vec<bool>,
    pub counts: LikelihoodCounts,
}

/// The outcome of a run: the samples, and every decision of every sweep,
/// sweep by sweep, each in visiting order (genes by index, then terms by
/// index).
#[derive(Clone, Debug, PartialEq, Eq)]
pub struct Draws {
    pub samples: Vec<Sample>,
    pub decisions: Vec<Vec<bool>>,
}

/// The checkpoint of one node after a proposed flip that was kept or not.
pub open spec fn settle(d: SaveableData<bool>, accepted: bool) -> SaveableData<bool> {
    if accepted {
        d.with_activity(!d.current)
    } else {
        d.with_activity(!d.current).restored()
    }
}

/// The checkpoints after one sweep that took the decisions `ds`: genes
/// first, then terms.
pub open spec fn sweep_state(
    state: (Seq<SaveableData<bool>>, Seq<SaveableData<bool>>),
    ds: Seq<bool>,
) -> (Seq<SaveableData<bool>>, Seq<SaveableData<bool>>) {
    (
        Seq::new(state.0.len(), |i: int| settle(state.0[i], ds[i])),
        Seq::new(state.1.len(), |j: int| settle(state.1[j], ds[state.0.len() + j])),
    )
}

/// The checkpoints after the first `k` sweeps of a run, each with its own
/// decisions.
pub open spec fn after_sweeps(
    start: (Seq<SaveableData<bool>>, Seq<SaveableData<bool>>),
    ds: Seq<Seq<bool>>,
    k: int,
) -> (Seq<SaveableData<bool>>, Seq<SaveableData<bool>>)
    decreases k,
{
    if k <= 0 {
        start
    } else {
        sweep_state(after_sweeps(start, ds, k - 1), ds[k - 1])
    }
}

/// The live activities of a sequence of checkpoints.
pub open spec fn currents(s: Seq<SaveableData<bool>>) -> Seq<bool> {
    Seq::new(s.len(), |i: int| s[i].current)
}

/// The sample records the checkpoints `state` of a graph with member lists
/// `lists` and gene hits `hits`: the live activities, and their statistics.
pub open spec fn records_state(
    sample: Sample,
    lists: Seq<Seq<usize>>,
    hits: Seq<bool>,
    state: (Seq<SaveableData<bool>>, Seq<SaveableData<bool>>),
) -> bool {
    &&& sample.gene_activity@ == currents(state.0)
    &&& sample.term_activity@ == currents(state.1)
    &&& sample.counts.of(lists, hits, currents(state.0), currents(state.1))
}

/// The decisions of a run, as sequences.
pub open spec fn decision_view(d: Seq<Vec<bool>>) -> Seq<Seq<bool>> {
    Seq::new(d.len(), |i: int| d[i]@)
}

/// A run is determined by where it starts and by the decisions it is handed:
/// two runs from the same checkpoints that take the same decisions in their
/// first `k` sweeps are in the same state after them.
pub proof fn lemma_run_determined(
    start: (Seq<SaveableData<bool>>, Seq<SaveableData<bool>>),
    ds1: Seq<Seq<bool>>,
    ds2: Seq<Seq<bool>>,
    k: int,
)
    requires
        0 <= k <= ds1.len(),
        k <= ds2.len(),
        forall|i: int| 0 <= i < k ==> ds1[i] == ds2[i],
    ensures
        after_sweeps(start, ds1, k) == after_sweeps(start, ds2, k),
    decreases k,
{
    if k > 0 {
        lemma_run_determined(start, ds1, ds2, k - 1);
    }
}

/// The number of sweeps of a run: burn-in, then `thinning` sweeps before
/// each sample.
pub open spec fn total_sweeps(burn_in: int, nsamples: int, thinning: int) -> int {
    burn_in + nsamples * thinning
}

/// The parameters of a run.
#[derive(Clone, Copy, Debug, PartialEq, Eq, Structural)]
pub struct SamplerConfig {
    burn_in: usize,
    nsamples: usize,
    thinning: usize,
}

impl SamplerConfig {
    pub closed spec fn burn_in_spec(&self) -> usize {
        self.burn_in
    }

    pub closed spec fn nsamples_spec(&self) -> usize {
        self.nsamples
    }

    pub closed spec fn thinning_spec(&self) -> usize {
        self.thinning
    }

    /// Run parameters: `burn_in` discarded sweeps, then `nsamples` samples,
    /// each taken after `thinning` more sweeps. Fails when no sample is
    /// asked for.
    pub fn new(burn_in: usize, nsamples: usize, thinning: usize) -> (r: Result<Self, SamplerError>)
        ensures
            r is Err <==> nsamples == 0,
            r is Err ==> r == Err::<Self, SamplerError>(SamplerError::NotConfigured),
            r matches Ok(c) ==> c.burn_in_spec() == burn_in && c.nsamples_spec() == nsamples
                && c.thinning_spec() == thinning,
    {
        if nsamples == 0 {
            Err(SamplerError::NotConfigured)
        } else {
            Ok(SamplerConfig { burn_in, nsamples, thinning })
        }
    }

    pub fn burn_in(&self) -> (r: usize)
        ensures
            r == self.burn_in_spec(),
    {
        self.burn_in
    }

    pub fn nsamples(&self) -> (r: usize)
        ensures
            r == self.nsamples_spec(),
    {
        self.nsamples
    }

    pub fn thinning(&self) -> (r: usize)
        ensures
            r == self.thinning_spec(),
    {
        self.thinning
    }
}

/// A single-site sampler over the activities of a graph: run parameters and
/// the observed hit of every gene.
#[derive(Clone, Debug)]
pub struct Sampler {
    config: SamplerConfig,
    hits: Vec<bool>,
}

impl Sampler {
    pub closed spec fn config_spec(&self) -> SamplerConfig {
        self.config
    }

    pub closed spec fn hits_spec(&self) -> Seq<bool> {
        self.hits@
    }

    /// A sampler for `graph`. Fails with `NotConfigured` when no sample is
    /// asked for, else with `InvalidObservation` at the first gene whose
    /// observation is neither a hit nor a miss.
    pub fn new<Id, Td, Gd: Observation>(
        graph: &GeneOntology<Id, Td, Gd>,
        burn_in: usize,
        nsamples: usize,
        thinning: usize,
    ) -> (r: Result<Self, SamplerError>)
        ensures
            r is Ok <==> nsamples > 0 && graph.observations_valid(),
            nsamples == 0 ==> r == Err::<Self, SamplerError>(SamplerError::NotConfigured),
            r matches Err(SamplerError::InvalidObservation { gene }) ==> {
                &&& nsamples > 0
                &&& gene < graph.gene_nodes().len()
                &&& graph.observations()[gene as int] is None
                &&& forall|i: int| 0 <= i < gene ==> #[trigger] graph.observations()[i] is Some
            },
            r matches Ok(s) ==> {
                &&& s.config_spec().burn_in_spec() == burn_in
                &&& s.config_spec().nsamples_spec() == nsamples
                &&& s.config_spec().thinning_spec() == thinning
                &&& s.hits_spec() == graph.hits()
            },
    {
        let config = match SamplerConfig::new(burn_in, nsamples, thinning) {
            Ok(c) => c,
            Err(e) => {
                return Err(e);
            },
        };
        match graph.observed_hits() {
            Ok(hits) => Ok(Sampler { config, hits }),
            Err(LikelihoodError::InvalidObservation { gene }) => Err(
                SamplerError::InvalidObservation { gene },
            ),
        }
    }

    pub fn config(&self) -> (r: SamplerConfig)
        ensures
            r == self.config_spec(),
    {
        self.config
    }

    pub fn hits(&self) -> (r: &Vec<bool>)
        ensures
            r@ == self.hits_spec(),
    {
        &self.hits
    }

    /// One sweep: a proposal for every gene by index, then for every term
    /// by index. Each proposal commits the node's activity and flips it; the
    /// judge sees the statistics before and after, and a rejected flip is
    /// rolled back. Returns the decisions in visiting order.
    pub fn sweep<Id, Td, Gd, J: ProposalJudge>(
        &self,
        graph: &mut GeneOntology<Id, Td, Gd>,
        judge: &mut J,
    ) -> (ds: Vec<bool>)
        requires
            old(graph).wf(),
            self.hits_spec().len() == old(graph).gene_nodes().len(),
        ensures
            final(graph).wf(),
            final(graph).same_structure(old(graph)),
            ds@.len() == old(graph).gene_nodes().len() + old(graph).term_nodes().len(),
            (final(graph).gene_checkpoints(), final(graph).term_checkpoints()) == sweep_state(
                (old(graph).gene_checkpoints(), old(graph).term_checkpoints()),
                ds@,
            ),
    {
        let ghost start = *graph;
        let ghost lists = start.member_lists();
        let n = graph.genes().len();
        let m = graph.terms().len();
        let mut gene_acts = graph.gene_activities();
        let mut term_acts = graph.term_activities();
        let mut counts = graph.likelihood_counts_with(&self.hits);
        let mut ds: Vec<bool> = Vec::new();
        let mut i: usize = 0;
        while i < n
            invariant
                start.wf(),
                graph.wf(),
                graph.same_structure(&start),
                lists == start.member_lists(),
                n == start.gene_nodes().len(),
                m == start.term_nodes().len(),
                self.hits_spec().len() == n,
                gene_acts@ == graph.gene_activity(),
                term_acts@ == graph.term_activity(),
                counts.of(lists, self.hits_spec(), gene_acts@, term_acts@),
                i <= n,
                ds@.len() == i,
                graph.term_checkpoints() == start.term_checkpoints(),
                graph.gene_checkpoints().len() == n,
                forall|j: int|
                    0 <= j < i ==> #[trigger] graph.gene_checkpoints()[j] == settle(
                        start.gene_checkpoints()[j],
                        ds@[j],
                    ),
                forall|j: int|
                    i <= j < n ==> #[trigger] graph.gene_checkpoints()[j]
                        == start.gene_checkpoints()[j],
            decreases n - i,
        {
            let ghost here = *graph;
            proof {
                graph.lemma_same_structure_lists(&start);
            }
            let after = graph.counts_after_gene_flip(&self.hits, &gene_acts, &term_acts, &counts, i);
            graph.flip_gene(i);
            proof {
                graph.lemma_same_structure_wf(&here);
            }
            let ghost flipped = *graph;
            let ok = judge.accept(&counts, &after);
            if ok {
                let b = !gene_acts[i];
                gene_acts.set(i, b);
                counts = after;
            } else {
                graph.restore_gene(i);
            }
            ds.push(ok);
            proof {
                graph.lemma_same_structure_trans(&flipped, &here);
                graph.lemma_same_structure_trans(&here, &start);
                graph.lemma_same_structure_wf(&here);
                graph.lemma_activity_is_current();
                here.lemma_activity_is_current();
                assert forall|k: int| 0 <= k < n implies #[trigger] graph.gene_activity()[k]
                    == gene_acts@[k] by {
                    if k != i {
                        assert(graph.gene_checkpoints()[k] == here.gene_checkpoints()[k]);
                    }
                }
                assert forall|k: int| 0 <= k < m implies #[trigger] graph.term_activity()[k]
                    == term_acts@[k] by {
                    assert(graph.term_checkpoints()[k] == here.term_checkpoints()[k]);
                }
                assert(graph.gene_activity() =~= gene_acts@);
                assert(graph.term_activity() =~= term_acts@);
            }
            i = i + 1;
        }
        let mut j: usize = 0;
        while j < m
            invariant
                start.wf(),
                graph.wf(),
                graph.same_structure(&start),
                lists == start.member_lists(),
                n == start.gene_nodes().len(),
                m == start.term_nodes().len(),
                self.hits_spec().len() == n,
                gene_acts@ == graph.gene_activity(),
                term_acts@ == graph.term_activity(),
                counts.of(lists, self.hits_spec(), gene_acts@, term_acts@),
                j <= m,
                ds@.len() == n + j,
                graph.gene_checkpoints().len() == n,
                graph.term_checkpoints().len() == m,
                forall|k: int|
                    0 <= k < n ==> #[trigger] graph.gene_checkpoints()[k] == settle(
                        start.gene_checkpoints()[k],
                        ds@[k],
                    ),
                forall|k: int|
                    0 <= k < j ==> #[trigger] graph.term_checkpoints()[k] == settle(
                        start.term_checkpoints()[k],
                        ds@[n + k],
                    ),
                forall|k: int|
                    j <= k < m ==> #[trigger] graph.term_checkpoints()[k]
                        == start.term_checkpoints()[k],
            decreases m - j,
        {
            let ghost here = *graph;
            proof {
                graph.lemma_same_structure_lists(&start);
            }
            let after = graph.counts_after_term_flip(&self.hits, &gene_acts, &term_acts, &counts, j);
            graph.flip_term(j);
            proof {
                graph.lemma_same_structure_wf(&here);
            }
            let ghost flipped = *graph;
            let ok = judge.accept(&counts, &after);
            if ok {
                let b = !term_acts[j];
                term_acts.set(j, b);
                counts = after;
            } else {
                graph.restore_term(j);
            }
            ds.push(ok);
            proof {
                graph.lemma_same_structure_trans(&flipped, &here);
                graph.lemma_same_structure_trans(&here, &start);
                graph.lemma_same_structure_wf(&here);
                graph.lemma_activity_is_current();
                here.lemma_activity_is_current();
                assert forall|k: int| 0 <= k < n implies #[trigger] graph.gene_activity()[k]
                    == gene_acts@[k] by {
                    assert(graph.gene_checkpoints()[k] == here.gene_checkpoints()[k]);
                }
                assert forall|k: int| 0 <= k < m implies #[trigger] graph.term_activity()[k]
                    == term_acts@[k] by {
                    if k != j {
                        assert(graph.term_checkpoints()[k] == here.term_checkpoints()[k]);
                    }
                }
                assert(graph.gene_activity() =~= gene_acts@);
                assert(graph.term_activity() =~= term_acts@);
            }
            j = j + 1;
        }
        proof {
            let expect = sweep_state((start.gene_checkpoints(), start.term_checkpoints()), ds@);
            assert(graph.gene_checkpoints() =~= expect.0);
            assert(graph.term_checkpoints() =~= expect.1);
        }
        ds
    }
    /// The whole run: `burn_in` sweeps whose states are discarded, then
    /// `nsamples` samples, each recorded at the end of `thinning` further
    /// sweeps (with no sweep between samples when `thinning` is zero).
    ///
    /// The run ends with exactly `nsamples` samples, whatever the burn-in,
    /// the thinning and the judge's answers; the state after every sweep, and
    /// so every sample, follows from the starting checkpoints and the
    /// decisions returned.
    pub fn draw_samples<Id, Td, Gd, J: ProposalJudge>(
        &self,
        graph: &mut GeneOntology<Id, Td, Gd>,
        judge: &mut J,
    ) -> (r: Draws)
        requires
            old(graph).wf(),
            self.hits_spec().len() == old(graph).gene_nodes().len(),
        ensures
            final(graph).wf(),
            final(graph).same_structure(old(graph)),
            r.samples@.len() == self.config_spec().nsamples_spec(),
            r.decisions@.len() == total_sweeps(
                self.config_spec().burn_in_spec() as int,
                self.config_spec().nsamples_spec() as int,
                self.config_spec().thinning_spec() as int,
            ),
            forall|k: int|
                0 <= k < r.decisions@.len() ==> #[trigger] r.decisions@[k]@.len()
                    == old(graph).gene_nodes().len() + old(graph).term_nodes().len(),
            (final(graph).gene_checkpoints(), final(graph).term_checkpoints()) == after_sweeps(
                (old(graph).gene_checkpoints(), old(graph).term_checkpoints()),
                decision_view(r.decisions@),
                r.decisions@.len() as int,
            ),
            forall|j: int|
                0 <= j < r.samples@.len() ==> records_state(
                    #[trigger] r.samples@[j],
                    old(graph).member_lists(),
                    self.hits_spec(),
                    after_sweeps(
                        (old(graph).gene_checkpoints(), old(graph).term_checkpoints()),
                        decision_view(r.decisions@),
                        self.config_spec().burn_in_spec() + (j + 1)
                            * self.config_spec().thinning_spec(),
                    ),
                ),
    {
        let ghost start = *graph;
        let ghost st0 = (start.gene_checkpoints(), start.term_checkpoints());
        let burn_in = self.config.burn_in;
        let nsamples = self.config.nsamples;
        let thinning = self.config.thinning;
        let ghost width = start.gene_nodes().len() + start.term_nodes().len();
        let mut decisions: Vec<Vec<bool>> = Vec::new();
        let mut samples: Vec<Sample> = Vec::new();
        let mut b: usize = 0;
        while b < burn_in
            invariant
                start.wf(),
                graph.wf(),
                graph.same_structure(&start),
                self.hits_spec().len() == start.gene_nodes().len(),
                width == start.gene_nodes().len() + start.term_nodes().len(),
                b <= burn_in,
                decisions@.len() == b,
                forall|k: int| 0 <= k < decisions@.len() ==> #[trigger] decisions@[k]@.len() == width,
                (graph.gene_checkpoints(), graph.term_checkpoints()) == after_sweeps(
                    st0,
                    decision_view(decisions@),
                    decisions@.len() as int,
                ),
            decreases burn_in - b,
        {
            let ghost before = decisions@;
            let ghost here = *graph;
            let ds = self.sweep(graph, judge);
            decisions.push(ds);
            proof {
                graph.lemma_same_structure_trans(&here, &start);
                lemma_run_determined(
                    st0,
                    decision_view(before),
                    decision_view(decisions@),
                    before.len() as int,
                );
                assert(decision_view(decisions@)[before.len() as int] == ds@);
            }
            b = b + 1;
        }
        let mut s: usize = 0;
        while s < nsamples
            invariant
                start.wf(),
                graph.wf(),
                graph.same_structure(&start),
                self.hits_spec().len() == start.gene_nodes().len(),
                width == start.gene_nodes().len() + start.term_nodes().len(),
                burn_in == self.config_spec().burn_in_spec(),
                thinning == self.config_spec().thinning_spec(),
                nsamples == self.config_spec().nsamples_spec(),
                s <= nsamples,
                decisions@.len() == burn_in + s * thinning,
                samples@.len() == s,
                forall|k: int| 0 <= k < decisions@.len() ==> #[trigger] decisions@[k]@.len() == width,
                (graph.gene_checkpoints(), graph.term_checkpoints()) == after_sweeps(
                    st0,
                    decision_view(decisions@),
                    decisions@.len() as int,
                ),
                forall|j: int|
                    0 <= j < s ==> records_state(
                        #[trigger] samples@[j],
                        start.member_lists(),
                        self.hits_spec(),
                        after_sweeps(st0, decision_view(decisions@), burn_in + (j + 1) * thinning),
                    ),
            decreases nsamples - s,
        {
            let ghost at_sample_start = decisions@;
            let mut t: usize = 0;
            while t < thinning
                invariant
                    start.wf(),
                    graph.wf(),
                    graph.same_structure(&start),
                    self.hits_spec().len() == start.gene_nodes().len(),
                    width == start.gene_nodes().len() + start.term_nodes().len(),
                    t <= thinning,
                    decisions@.len() == at_sample_start.len() + t,
                    forall|k: int|
                        0 <= k < at_sample_start.len() ==> decisions@[k] == at_sample_start[k],
                    forall|k: int|
                        0 <= k < decisions@.len() ==> #[trigger] decisions@[k]@.len() == width,
                    (graph.gene_checkpoints(), graph.term_checkpoints()) == after_sweeps(
                        st0,
                        decision_view(decisions@),
                        decisions@.len() as int,
                    ),
                decreases thinning - t,
            {
                let ghost before = decisions@;
                let ghost here = *graph;
                let ds = self.sweep(graph, judge);
                decisions.push(ds);
                proof {
                    graph.lemma_same_structure_trans(&here, &start);
                    lemma_run_determined(
                        st0,
                        decision_view(before),
                        decision_view(decisions@),
                        before.len() as int,
                    );
                    assert(decision_view(decisions@)[before.len() as int] == ds@);
                }
                t = t + 1;
            }
            let gene_activity = graph.gene_activities();
            let term_activity = graph.term_activities();
            let counts = graph.likelihood_counts_with(&self.hits);
            let ghost samples_before = samples@;
            samples.push(Sample { gene_activity, term_activity, counts });
            proof {
                assert((s + 1) * thinning == s * thinning + thinning) by (nonlinear_arith);
                graph.lemma_same_structure_lists(&start);
                assert(currents(graph.gene_checkpoints()) =~= graph.gene_activity());
                assert(currents(graph.term_checkpoints()) =~= graph.term_activity());
                assert forall|j: int| 0 <= j < s + 1 implies records_state(
                    #[trigger] samples@[j],
                    start.member_lists(),
                    self.hits_spec(),
                    after_sweeps(st0, decision_view(decisions@), burn_in + (j + 1) * thinning),
                ) by {
                    if j < s {
                        assert(samples@[j] == samples_before[j]);
                        assert((j + 1) * thinning <= s * thinning) by (nonlinear_arith)
                            requires j + 1 <= s, 0 <= thinning;
                        lemma_run_determined(
                            st0,
                            decision_view(at_sample_start),
                            decision_view(decisions@),
                            burn_in + (j + 1) * thinning,
                        );
                    }
                }
            }
            s = s + 1;
        }
        proof {
            graph.lemma_same_structure_lists(&start);
        }
        Draws { samples, decisions }
    }
}

} // verus!

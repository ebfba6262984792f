//! Bayesian multiset gene set enrichment: a bipartite annotation graph of
//! genes and terms with checkpointed activity states, the sufficient
//! statistics of its likelihood, and a single-site sampler over it.

mod activeable;
mod gene_ontology;
mod genes;
mod identifiers;
mod likelihood;
mod node;
mod observation;
mod sampler;
mod saveable;
mod terms;

pub use activeable::{lemma_checkpoint_round_trip, Activeable};
pub use gene_ontology::{
    edges_in_range, lemma_mutual_membership, members_of_term, terms_of_gene, GeneOntology,
    GraphError,
};
pub use genes::Gene;
pub use identifiers::{
    assemble, distinct_edges, edge_gene_names, edge_term_names, first_occurrences, first_records,
    keep_first_records, records_for_names, resolve_edges, KeptRecords, LoadError, NameIndex,
};
pub use likelihood::{
    count_part_states, is_legal_term, lemma_counts_cover_nodes, lemma_likelihood_decomposition,
    term_legal, LikelihoodCounts, LikelihoodError, PartCounts, WholeCounts,
};
pub use node::{GeneSet, Node, NodeIterator, Part, Whole};
pub use observation::Observation;
pub use sampler::{
    after_sweeps, currents, decision_view, lemma_run_determined, records_state, settle,
    sweep_state, total_sweeps, Draws, ProposalJudge, Sample, Sampler, SamplerConfig, SamplerError,
};
pub use saveable::{Saveable, SaveableData};
pub use terms::Term;

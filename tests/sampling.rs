use rolemodel_gsea::{
    Draws, GeneOntology, LikelihoodCounts, ProposalJudge, Sampler, SamplerConfig, SamplerError,
};

fn ten_gene_ontology() -> GeneOntology<usize, bool, bool> {
    GeneOntology::<usize, bool, bool>::from_incidence(
        (0..10).map(|i| (i, [0, 2, 3, 4, 9].contains(&i))).collect(),
        vec![(0, false), (1, true), (2, false), (3, false)],
        vec![
            (0, 0), (0, 1), (0, 4),
            (1, 1), (1, 5), (1, 8), (1, 9),
            (2, 1),
            (3, 0), (3, 6),
        ],
    )
    .unwrap()
}

struct Always(bool);

impl ProposalJudge for Always {
    fn accept(&mut self, _before: &LikelihoodCounts, _after: &LikelihoodCounts) -> bool {
        self.0
    }
}

/// A seeded pseudo-random judge that prefers moves towards agreement with
/// the observations.
struct Seeded {
    state: u64,
}

impl ProposalJudge for Seeded {
    fn accept(&mut self, before: &LikelihoodCounts, after: &LikelihoodCounts) -> bool {
        self.state = self.state.wrapping_mul(6364136223846793005).wrapping_add(1442695040888963407);
        let agree = |c: &LikelihoodCounts| c.parts.active_hit + c.parts.inactive_miss;
        agree(after) >= agree(before) || (self.state >> 33) % 4 == 0
    }
}

fn run(seed: u64, burn_in: usize, nsamples: usize, thinning: usize) -> (Draws, Vec<bool>) {
    let mut g = ten_gene_ontology();
    let sampler = Sampler::new(&g, burn_in, nsamples, thinning).unwrap();
    let mut judge = Seeded { state: seed };
    let draws = sampler.draw_samples(&mut g, &mut judge);
    (draws, g.gene_activities())
}

#[test]
fn sample_count_ignores_burn_in_and_thinning() {
    for (burn_in, thinning) in [(0, 0), (0, 1), (2, 1), (1, 3), (5, 2)] {
        let (draws, _) = run(7, burn_in, 4, thinning);
        assert_eq!(draws.samples.len(), 4);
        assert_eq!(draws.decisions.len(), burn_in + 4 * thinning);
        assert!(draws.decisions.iter().all(|d| d.len() == 14));
    }
}

#[test]
fn same_seed_same_samples() {
    let (a, ga) = run(42, 3, 5, 2);
    let (b, gb) = run(42, 3, 5, 2);
    assert_eq!(a, b);
    assert_eq!(ga, gb);
}

#[test]
fn zero_samples_is_not_configured() {
    let g = ten_gene_ontology();
    assert_eq!(Sampler::new(&g, 1, 0, 1).err(), Some(SamplerError::NotConfigured));
    assert_eq!(SamplerConfig::new(1, 0, 1).err(), Some(SamplerError::NotConfigured));
    let c = SamplerConfig::new(2, 3, 4).unwrap();
    assert_eq!((c.burn_in(), c.nsamples(), c.thinning()), (2, 3, 4));
}

#[test]
fn sampler_reports_invalid_observation() {
    let g = GeneOntology::<usize, (), u8>::from_incidence(vec![(0, 1), (1, 5)], vec![], vec![]).unwrap();
    assert_eq!(
        Sampler::new(&g, 0, 1, 1).err(),
        Some(SamplerError::InvalidObservation { gene: 1 })
    );
}

#[test]
fn accepting_every_flip_inverts_every_node() {
    let mut g = ten_gene_ontology();
    let sampler = Sampler::new(&g, 0, 1, 1).unwrap();
    let draws = sampler.draw_samples(&mut g, &mut Always(true));
    assert_eq!(draws.samples[0].gene_activity, vec![true; 10]);
    assert_eq!(draws.samples[0].term_activity, vec![true; 4]);
    assert_eq!(draws.decisions, vec![vec![true; 14]]);
    assert_eq!(draws.samples[0].counts.parts.active_hit, 5);
    assert_eq!(draws.samples[0].counts.wholes.active, 4);
}

#[test]
fn rejecting_every_flip_keeps_the_state() {
    let mut g = ten_gene_ontology();
    let sampler = Sampler::new(&g, 2, 2, 2).unwrap();
    let draws = sampler.draw_samples(&mut g, &mut Always(false));
    for s in &draws.samples {
        assert_eq!(s.gene_activity, vec![false; 10]);
        assert_eq!(s.term_activity, vec![false; 4]);
    }
    assert_eq!(g.gene_activities(), vec![false; 10]);
}

#[test]
fn zero_thinning_records_without_sweeping() {
    let mut g = ten_gene_ontology();
    g.flip_gene(3);
    let sampler = Sampler::new(&g, 0, 3, 0).unwrap();
    let draws = sampler.draw_samples(&mut g, &mut Always(true));
    assert!(draws.decisions.is_empty());
    for s in &draws.samples {
        assert!(s.gene_activity[3]);
        assert_eq!(s.counts.parts.active_hit, 1);
    }
}

#[test]
fn single_sweep_alternates() {
    let mut g = ten_gene_ontology();
    let sampler = Sampler::new(&g, 0, 2, 1).unwrap();
    let draws = sampler.draw_samples(&mut g, &mut Always(true));
    assert_eq!(draws.samples[0].gene_activity, vec![true; 10]);
    assert_eq!(draws.samples[1].gene_activity, vec![false; 10]);
    assert_eq!(sampler.hits().len(), 10);
    assert_eq!(sampler.config().nsamples(), 2);
}

use rolemodel_gsea::{
    Activeable, Gene, GeneOntology, GeneSet, GraphError, LikelihoodCounts, LikelihoodError, Node,
    PartCounts, Saveable, SaveableData, Term, WholeCounts, Whole,
};

fn ten_gene_ontology() -> GeneOntology<usize, bool, bool> {
    GeneOntology::<usize, bool, bool>::from_incidence(
        vec![
            (0, true),
            (1, false),
            (2, true),
            (3, true),
            (4, true),
            (5, false),
            (6, false),
            (7, false),
            (8, false),
            (9, true),
        ],
        vec![(0, false), (1, true), (2, false), (3, false)],
        vec![
            (0, 0), (0, 1), (0, 4),
            (1, 1), (1, 5), (1, 8), (1, 9),
            (2, 1),
            (3, 0), (3, 6),
        ],
    )
    .unwrap()
}

#[test]
fn basic_gene_ont() {
    let gene_ontology = GeneOntology::<usize, bool, bool>::new(
        vec![Gene::new(0, true, vec![0])],
        vec![Term::new(0, false, vec![0])],
    )
    .unwrap();

    assert_eq!(
        *gene_ontology.wholes()[0]
            .iter_parts(gene_ontology.parts())
            .next()
            .unwrap()
            .data(),
        true
    );
}

#[test]
fn larger_gene_ont() {
    let gene_ontology = GeneOntology::<usize, bool, bool>::from_incidence(
        vec![
            (0, true),
            (1, false),
            (2, true),
            (3, true),
            (4, true),
            (5, false),
            (6, false),
            (7, false),
            (8, false),
            (9, true),
        ],
        vec![(0, false), (1, true), (2, false), (3, false)],
        vec![
            (0, 0), (0, 1), (0, 4),
            (1, 1), (1, 5), (1, 8), (1, 9),
            (2, 1),
            (3, 0), (3, 6),
        ],
    )
    .unwrap();

    let result: Vec<usize> = gene_ontology
        .wholes()
        .iter()
        .map(|whole| {
            let mut parts = whole.iter_parts(gene_ontology.genes());
            let mut n = 0;
            while parts.next().is_some() {
                n += 1;
            }
            n
        })
        .collect();

    assert_eq!(result, vec![3, 4, 1, 2]);
}

#[test]
fn member_list_sizes_follow_incidence() {
    let g = ten_gene_ontology();
    let sizes: Vec<usize> = g.terms().iter().map(|t| t.genes().len()).collect();
    assert_eq!(sizes, vec![3, 4, 1, 2]);
    assert_eq!(g.terms()[1].genes(), &vec![1, 5, 8, 9]);
    assert_eq!(g.genes()[1].terms(), &vec![0, 1, 2]);
    assert_eq!(g.genes()[7].terms(), &Vec::<usize>::new());
}

#[test]
fn membership_is_mutual() {
    let g = ten_gene_ontology();
    for (gi, gene) in g.genes().iter().enumerate() {
        for (ti, term) in g.terms().iter().enumerate() {
            assert_eq!(gene.terms().contains(&ti), term.genes().contains(&gi));
        }
    }
}

#[test]
fn records_keep_ids_and_data() {
    let g = ten_gene_ontology();
    assert_eq!(*g.genes()[3].id(), 3);
    assert_eq!(*g.genes()[5].data(), false);
    assert_eq!(*g.terms()[1].data(), true);
    assert!(g.genes().iter().all(|x| !x.is_active()));
    assert!(g.terms().iter().all(|x| !x.is_active()));
}

#[test]
fn incidence_out_of_range_is_refused() {
    let r = GeneOntology::<usize, bool, bool>::from_incidence(
        vec![(0, true), (1, false)],
        vec![(0, false)],
        vec![(0, 0), (0, 2)],
    );
    assert_eq!(r.err(), Some(GraphError::IndexOutOfRange));
    let r = GeneOntology::<usize, bool, bool>::from_incidence(
        vec![(0, true)],
        vec![(0, false)],
        vec![(1, 0)],
    );
    assert_eq!(r.err(), Some(GraphError::IndexOutOfRange));
}

#[test]
fn empty_incidence_builds() {
    let g = GeneOntology::<usize, bool, bool>::from_incidence(vec![], vec![], vec![]).unwrap();
    assert_eq!(g.genes().len(), 0);
    assert_eq!(g.terms().len(), 0);
}

#[test]
fn inconsistent_nodes_are_refused() {
    let r = GeneOntology::<usize, bool, bool>::new(
        vec![Gene::new(0, true, vec![0])],
        vec![Term::new(0, false, vec![])],
    );
    assert_eq!(r.err(), Some(GraphError::AsymmetricMembership));
    let r = GeneOntology::<usize, bool, bool>::new(
        vec![Gene::new(0, true, vec![])],
        vec![Term::new(0, false, vec![3])],
    );
    assert_eq!(r.err(), Some(GraphError::IndexOutOfRange));
}

#[test]
fn incremental_build_matches_incidence() {
    let mut gene = Gene::new("g", 1u8, vec![]);
    let mut term = Term::new("t", (), vec![]);
    gene.add_term(0);
    term.add_gene(0);
    let g = GeneOntology::new(vec![gene], vec![term]).unwrap();
    assert_eq!(g.genes()[0].terms(), &vec![0]);
    assert_eq!(g.terms()[0].genes(), &vec![0]);
}

#[test]
fn checkpoint_round_trip() {
    for start in [false, true] {
        for x in [false, true] {
            let mut d = SaveableData::new(start, !start);
            d.save();
            d.set_activity(x);
            d.restore();
            assert_eq!(d.is_active(), start);
            assert_eq!(d.saved(), start);
        }
    }
}

#[test]
fn set_activity_commits_previous_state() {
    let mut d = SaveableData::new(true, false);
    d.set_activity(false);
    assert_eq!(d.current(), false);
    assert_eq!(d.saved(), true);
    d.switch_activity();
    assert_eq!(d.current(), true);
    assert!(!d.is_inactive());
}

#[test]
fn node_checkpoint_round_trip() {
    let mut gene = Gene::new(0usize, true, vec![]);
    gene.save();
    gene.set_activity(true);
    assert!(gene.is_active());
    gene.restore();
    assert!(!gene.is_active());
    let mut term = Term::new(0usize, true, vec![]);
    term.set_activity(true);
    term.save();
    term.set_activity(false);
    term.restore();
    assert!(term.is_active());
}

#[test]
fn graph_save_and_restore() {
    let mut g = ten_gene_ontology();
    g.flip_gene(2);
    g.flip_term(3);
    g.save();
    g.flip_gene(2);
    g.flip_gene(4);
    g.restore();
    assert_eq!(g.gene_activities(), vec![false, false, true, false, false, false, false, false, false, false]);
    assert_eq!(g.term_activities(), vec![false, false, false, true]);
}

#[test]
fn likelihood_counts_of_a_state() {
    let mut g = ten_gene_ontology();
    g.flip_gene(0);
    g.flip_gene(1);
    g.flip_term(0);
    let c = g.likelihood_counts().unwrap();
    assert_eq!(
        c,
        LikelihoodCounts {
            parts: PartCounts { active_hit: 1, active_miss: 1, inactive_hit: 4, inactive_miss: 4 },
            wholes: WholeCounts { active: 1, inactive: 3, illegal: 1 },
        }
    );
    assert_eq!(c.parts, g.part_counts().unwrap());
    assert_eq!(c.wholes, g.whole_counts());
}

#[test]
fn all_inactive_counts() {
    let g = ten_gene_ontology();
    let c = g.likelihood_counts().unwrap();
    assert_eq!(c.parts, PartCounts { active_hit: 0, active_miss: 0, inactive_hit: 5, inactive_miss: 5 });
    assert_eq!(c.wholes, WholeCounts { active: 0, inactive: 4, illegal: 0 });
}

#[test]
fn active_term_without_active_members_is_illegal() {
    let mut g = ten_gene_ontology();
    g.flip_term(1);
    g.flip_term(2);
    let w = g.whole_counts();
    assert_eq!(w, WholeCounts { active: 2, inactive: 2, illegal: 2 });
    g.flip_gene(1);
    assert_eq!(g.whole_counts(), WholeCounts { active: 2, inactive: 2, illegal: 0 });
}

#[test]
fn legality_rule() {
    let acts = vec![true, true, false];
    assert!(rolemodel_gsea::is_legal_term(true, &vec![0, 2], &acts));
    assert!(!rolemodel_gsea::is_legal_term(true, &vec![2], &acts));
    assert!(!rolemodel_gsea::is_legal_term(true, &vec![], &acts));
    assert!(rolemodel_gsea::is_legal_term(false, &vec![0, 2], &acts));
    assert!(!rolemodel_gsea::is_legal_term(false, &vec![0, 1, 2], &acts));
    assert!(rolemodel_gsea::is_legal_term(false, &vec![], &acts));
}

#[test]
fn counts_of_part_states() {
    let c = rolemodel_gsea::count_part_states(
        &vec![true, true, false, false, true],
        &vec![true, false, true, false, true],
    );
    assert_eq!(c, PartCounts { active_hit: 2, active_miss: 1, inactive_hit: 1, inactive_miss: 1 });
}

#[test]
fn integer_observations_are_read_as_indicators() {
    let g = GeneOntology::<&str, (), u8>::from_incidence(
        vec![("a", 1), ("b", 0), ("c", 1)],
        vec![],
        vec![],
    )
    .unwrap();
    assert_eq!(g.observed_hits(), Ok(vec![true, false, true]));
    let g = GeneOntology::<&str, (), i64>::from_incidence(vec![("a", 0), ("b", 1)], vec![], vec![]).unwrap();
    assert_eq!(g.observed_hits(), Ok(vec![false, true]));
    let g = GeneOntology::<&str, (), usize>::from_incidence(vec![("a", 1)], vec![], vec![]).unwrap();
    assert_eq!(g.observed_hits(), Ok(vec![true]));
    let g = GeneOntology::<&str, (), u32>::from_incidence(vec![("a", 0)], vec![], vec![]).unwrap();
    assert_eq!(g.observed_hits(), Ok(vec![false]));
}

#[test]
fn invalid_observation_is_reported() {
    let g = GeneOntology::<&str, (), u8>::from_incidence(
        vec![("a", 1), ("b", 0), ("c", 2), ("d", 7)],
        vec![],
        vec![],
    )
    .unwrap();
    assert_eq!(g.observed_hits(), Err(LikelihoodError::InvalidObservation { gene: 2 }));
    assert_eq!(g.part_counts(), Err(LikelihoodError::InvalidObservation { gene: 2 }));
    assert_eq!(g.likelihood_counts(), Err(LikelihoodError::InvalidObservation { gene: 2 }));
}

#[test]
fn bool_observations_are_their_own_hits() {
    let g = ten_gene_ontology();
    assert_eq!(
        g.observed_hits(),
        Ok(vec![true, false, true, true, true, false, false, false, false, true])
    );
}

#[test]
fn flip_updates_match_a_full_count() {
    let mut g = ten_gene_ontology();
    g.flip_gene(1);
    g.flip_term(2);
    let hits = g.observed_hits().unwrap();
    for i in 0..10 {
        let before = g.likelihood_counts().unwrap();
        let after = g.counts_after_gene_flip(&hits, &g.gene_activities(), &g.term_activities(), &before, i);
        g.flip_gene(i);
        assert_eq!(after, g.likelihood_counts().unwrap());
    }
    for t in 0..4 {
        let before = g.likelihood_counts().unwrap();
        let after = g.counts_after_term_flip(&hits, &g.gene_activities(), &g.term_activities(), &before, t);
        g.flip_term(t);
        assert_eq!(after, g.likelihood_counts().unwrap());
    }
}

#[test]
fn repeated_edges_count_once_in_flip_updates() {
    let mut g = GeneOntology::<usize, (), bool>::from_incidence(
        vec![(0, true), (1, false)],
        vec![(0, ()), (1, ())],
        vec![(0, 0), (0, 0), (1, 0), (1, 1)],
    )
    .unwrap();
    g.flip_term(0);
    g.flip_term(1);
    let hits = g.observed_hits().unwrap();
    let before = g.likelihood_counts().unwrap();
    assert_eq!(before.wholes.illegal, 2);
    let after = g.counts_after_gene_flip(&hits, &g.gene_activities(), &g.term_activities(), &before, 0);
    g.flip_gene(0);
    assert_eq!(after, g.likelihood_counts().unwrap());
    assert_eq!(after.wholes.illegal, 0);
}

#[test]
fn term_legality_of_the_graph() {
    let mut g = ten_gene_ontology();
    assert!((0..4).all(|t| g.term_is_legal(t)));
    g.flip_term(2);
    assert!(!g.term_is_legal(2));
    g.flip_gene(1);
    assert!(g.term_is_legal(2));
    g.flip_gene(0);
    assert!(g.term_is_legal(3));
    g.flip_gene(6);
    assert!(!g.term_is_legal(3));
}

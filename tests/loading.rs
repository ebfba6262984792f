use rolemodel_gsea::{
    assemble, distinct_edges, edge_gene_names, edge_term_names, keep_first_records,
    records_for_names, resolve_edges, LoadError,
};

fn s(x: &str) -> String {
    x.to_string()
}

fn named(v: &[(&str, u8)]) -> Vec<(String, u8)> {
    v.iter().map(|(n, d)| (s(n), *d)).collect()
}

fn edges(v: &[(&str, &str)]) -> Vec<(String, String)> {
    v.iter().map(|(t, g)| (s(t), s(g))).collect()
}

#[test]
fn first_record_of_a_name_is_kept() {
    let kept = keep_first_records(named(&[("a", 1), ("b", 2), ("a", 3), ("c", 4), ("b", 5)]));
    assert_eq!(kept.records(), &named(&[("a", 1), ("b", 2), ("c", 4)]));
    assert_eq!(kept.repeats(), &vec![(2, 0), (4, 1)]);
    assert_eq!(kept.position(&s("c")), Some(2));
    assert_eq!(kept.position(&s("a")), Some(0));
    assert_eq!(kept.position(&s("z")), None);
}

#[test]
fn no_records_keeps_nothing() {
    let kept = keep_first_records(Vec::<(String, u8)>::new());
    assert!(kept.records().is_empty());
    assert!(kept.repeats().is_empty());
}

#[test]
fn names_get_one_record_each_in_first_order() {
    let kept = records_for_names(&vec![s("x"), s("y"), s("x"), s("z"), s("y")], 0u8);
    assert_eq!(kept.records(), &named(&[("x", 0), ("y", 0), ("z", 0)]));
    assert_eq!(kept.position(&s("z")), Some(2));
    assert!(kept.repeats().is_empty());
}

#[test]
fn edge_names_by_side() {
    let adj = edges(&[("t1", "g1"), ("t2", "g2"), ("t1", "g3")]);
    assert_eq!(edge_term_names(&adj), vec![s("t1"), s("t2"), s("t1")]);
    assert_eq!(edge_gene_names(&adj), vec![s("g1"), s("g2"), s("g3")]);
}

#[test]
fn edges_resolve_to_indices() {
    let terms = keep_first_records(named(&[("t1", 0), ("t2", 0)]));
    let genes = keep_first_records(named(&[("g1", 1), ("g2", 0), ("g3", 1)]));
    let adj = edges(&[("t2", "g3"), ("t1", "g1"), ("t2", "g1")]);
    assert_eq!(resolve_edges(&adj, &terms, &genes), Ok(vec![(1, 2), (0, 0), (1, 0)]));
}

#[test]
fn unknown_names_are_reported() {
    let terms = keep_first_records(named(&[("t1", 0)]));
    let genes = keep_first_records(named(&[("g1", 1)]));
    let adj = edges(&[("t1", "g1"), ("t1", "gx"), ("tx", "g1")]);
    assert_eq!(resolve_edges(&adj, &terms, &genes), Err(LoadError::UnknownGene { edge: 1 }));
    let adj = edges(&[("tx", "gx")]);
    assert_eq!(resolve_edges(&adj, &terms, &genes), Err(LoadError::UnknownTerm { edge: 0 }));
}

#[test]
fn repeated_edges_are_kept_once() {
    assert_eq!(
        distinct_edges(&vec![(0, 1), (2, 0), (0, 1), (1, 1), (2, 0)]),
        vec![(0, 1), (2, 0), (1, 1)]
    );
    assert_eq!(distinct_edges(&vec![]), vec![]);
}

#[test]
fn named_graph_is_assembled() {
    let genes = keep_first_records(named(&[("g1", 1), ("g2", 0), ("g3", 1)]));
    let adj = edges(&[("t1", "g1"), ("t2", "g3"), ("t1", "g1"), ("t1", "g2")]);
    let terms = records_for_names(&edge_term_names(&adj), 0u8);
    let g = assemble(genes, terms, &adj).unwrap();
    assert_eq!(g.genes().len(), 3);
    assert_eq!(g.terms().len(), 2);
    assert_eq!(g.terms()[0].genes(), &vec![0, 1]);
    assert_eq!(g.terms()[1].genes(), &vec![2]);
    assert_eq!(g.genes()[0].terms(), &vec![0]);
    assert_eq!(g.genes()[2].terms(), &vec![1]);
    assert_eq!(g.observed_hits(), Ok(vec![true, false, true]));
}

#[test]
fn assembly_fails_on_unknown_gene() {
    let genes = keep_first_records(named(&[("g1", 1)]));
    let adj = edges(&[("t1", "g1"), ("t1", "g2")]);
    let terms = records_for_names(&edge_term_names(&adj), 0u8);
    assert_eq!(assemble(genes, terms, &adj).err(), Some(LoadError::UnknownGene { edge: 1 }));
}

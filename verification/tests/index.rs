use rdf_fusion_storage::index::{
    choose_best_position, is_term_bound, quads_for_index, same_components, BlankNodeMatchingMode,
    EncodedQuad, EncodedTerm, IndexComponents, IndexComponentsCreationError, IndexPermutations,
    IndexQuad, NamedGraphStorage, QuadComponent, QuadIndex, ScanInstructions, TermPatternKind,
};
use rdf_fusion_storage::index::{is_graph_bound, is_named_node_bound, ActiveGraphKind, NamedNodePatternKind};

#[derive(Debug, Hash, PartialEq, Eq, Clone, Copy, PartialOrd, Ord)]
struct MyId(u32);

impl EncodedTerm for MyId {
    fn is_default_graph(&self) -> bool {
        self.0 == 0
    }
}

fn dummy_quad() -> EncodedQuad<MyId> {
    EncodedQuad { graph_name: MyId(1), subject: MyId(2), predicate: MyId(3), object: MyId(4) }
}

fn oid(id: u32) -> MyId {
    MyId(id)
}

#[test]
fn index_configuration_accepts_unique_components() {
    let ok = IndexComponents::try_new([
        QuadComponent::GraphName,
        QuadComponent::Subject,
        QuadComponent::Predicate,
        QuadComponent::Object,
    ]);
    assert!(ok.is_ok());
}

#[test]
fn index_configuration_rejects_duplicate_components() {
    let err = IndexComponents::try_new([
        QuadComponent::GraphName,
        QuadComponent::Subject,
        QuadComponent::Subject,
        QuadComponent::Object,
    ]);
    assert!(err.is_err());
    assert_eq!(err.unwrap_err(), IndexComponentsCreationError);
    assert_eq!(IndexComponentsCreationError.to_string(), "Duplicate indexed component given.");
}

#[test]
fn test_for_index_gspo() {
    let quad = dummy_quad();
    let reordered = quad.for_index(IndexComponents::GSPO());
    assert_eq!(reordered.0, [oid(1), oid(2), oid(3), oid(4)]);
}

#[test]
fn test_for_index_gpos() {
    let quad = dummy_quad();
    let reordered = quad.for_index(IndexComponents::GPOS());
    assert_eq!(reordered.0, [oid(1), oid(3), oid(4), oid(2)]);
}

#[test]
fn list_all_holds_every_order_once() {
    let all = IndexComponents::list_all();
    assert_eq!(all.len(), 24);
    for i in 0..all.len() {
        for j in 0..all.len() {
            assert_eq!(same_components(&all[i], &all[j]), i == j);
        }
    }
    assert_eq!(
        IndexComponents::SPOG().inner(),
        [QuadComponent::Subject, QuadComponent::Predicate, QuadComponent::Object, QuadComponent::GraphName]
    );
}

#[test]
fn test_scan_score_fully_bound() {
    assert_eq!(IndexComponents::GSPO().scan_score(true, true, true, true), 15);
}

#[test]
fn test_scan_score_longer_prefixes_score_higher() {
    let index = IndexComponents::GSPO();
    let score_g = index.scan_score(true, false, false, false);
    let score_gs = index.scan_score(true, true, false, false);
    let score_gsp = index.scan_score(true, true, true, false);
    assert!(score_gsp > score_gs);
    assert!(score_gs > score_g);
}

#[test]
fn test_scan_score_broken_prefix() {
    assert_eq!(IndexComponents::GSPO().scan_score(true, false, true, true), 11);
}

#[test]
fn test_scan_score_unbound_first_component() {
    assert_eq!(IndexComponents::GSPO().scan_score(false, true, true, true), 7);
}

#[test]
fn scan_score_follows_the_index_order() {
    assert_eq!(IndexComponents::OSPG().scan_score(false, false, false, true), 8);
    assert_eq!(IndexComponents::OSPG().scan_score(true, false, false, false), 1);
}

#[test]
fn term_boundness() {
    assert!(is_term_bound(TermPatternKind::NamedNode, BlankNodeMatchingMode::Variable));
    assert!(is_term_bound(TermPatternKind::Literal, BlankNodeMatchingMode::Variable));
    assert!(is_term_bound(TermPatternKind::BlankNode, BlankNodeMatchingMode::Filter));
    assert!(!is_term_bound(TermPatternKind::BlankNode, BlankNodeMatchingMode::Variable));
    assert!(!is_term_bound(TermPatternKind::Variable, BlankNodeMatchingMode::Filter));
}

#[test]
fn best_position_prefers_the_first_of_equal_scores() {
    assert_eq!(choose_best_position(&[3, 7, 7, 1]), 1);
    assert_eq!(choose_best_position(&[5]), 0);
    assert_eq!(choose_best_position(&[2, 2, 2]), 0);
}

#[test]
fn quads_are_laid_out_for_an_index() {
    let quads = [dummy_quad(), EncodedQuad { graph_name: oid(0), subject: oid(5), predicate: oid(6), object: oid(7) }];
    let laid_out = quads_for_index(&quads, IndexComponents::OPSG());
    assert_eq!(laid_out, vec![IndexQuad([oid(4), oid(3), oid(2), oid(1)]), IndexQuad([oid(7), oid(6), oid(5), oid(0)])]);
}

#[derive(Debug, Default)]
struct Graphs(Vec<MyId>);

impl NamedGraphStorage<MyId> for Graphs {
    fn insert(&mut self, graph_name: MyId) -> bool {
        if self.0.contains(&graph_name) {
            false
        } else {
            self.0.push(graph_name);
            true
        }
    }

    fn contains(&self, graph_name: &MyId) -> bool {
        self.0.contains(graph_name)
    }

    fn remove(&mut self, graph_name: &MyId) -> bool {
        let before = self.0.len();
        self.0.retain(|g| g != graph_name);
        before != self.0.len()
    }

    fn graph_names(&self) -> Vec<MyId> {
        self.0.clone()
    }
}

#[derive(Debug, Clone, Copy)]
struct Pattern([bool; 4]);

impl ScanInstructions for Pattern {
    fn reorder(&self, components: IndexComponents) -> Self {
        let mut bound = [false; 4];
        for (i, c) in components.inner().iter().enumerate() {
            bound[i] = match c {
                QuadComponent::GraphName => self.0[0],
                QuadComponent::Subject => self.0[1],
                QuadComponent::Predicate => self.0[2],
                QuadComponent::Object => self.0[3],
            };
        }
        Pattern(bound)
    }
}

#[derive(Debug)]
struct VecIndex {
    components: IndexComponents,
    quads: Vec<IndexQuad<MyId>>,
}

impl QuadIndex for VecIndex {
    type Term = MyId;
    type NamedGraphStorage = Graphs;
    type ScanInstructions = Pattern;

    fn components(&self) -> IndexComponents {
        self.components
    }

    fn len(&self) -> usize {
        self.quads.len()
    }

    fn insert(&mut self, quads: Vec<IndexQuad<MyId>>) -> usize {
        for q in quads {
            if !self.quads.contains(&q) {
                self.quads.push(q);
            }
        }
        self.quads.len()
    }

    fn remove(&mut self, quads: Vec<IndexQuad<MyId>>) -> usize {
        self.quads.retain(|q| !quads.contains(q));
        self.quads.len()
    }

    fn clear(&mut self) {
        self.quads.clear();
    }

    fn clear_graph(&mut self, graph_name: MyId) {
        let position = self.components.inner().iter().position(|c| *c == QuadComponent::GraphName).unwrap();
        self.quads.retain(|q| q.0[position] != graph_name);
    }

    fn compute_scan_score(&self, pattern: &Pattern) -> usize {
        let p = pattern.0;
        let mut score = 0;
        for (i, bound) in p.iter().enumerate() {
            if *bound {
                score += 1 << (3 - i);
            }
        }
        score
    }
}

fn permutations() -> IndexPermutations<VecIndex> {
    IndexPermutations::new(
        Graphs::default(),
        vec![
            VecIndex { components: IndexComponents::GSPO(), quads: vec![] },
            VecIndex { components: IndexComponents::GPOS(), quads: vec![] },
            VecIndex { components: IndexComponents::GOSP(), quads: vec![] },
        ],
    )
}

#[test]
fn permutations_insert_into_every_index_and_record_named_graphs() {
    let mut perms = permutations();
    let default_graph_quad = EncodedQuad { graph_name: oid(0), subject: oid(5), predicate: oid(6), object: oid(7) };
    let count = perms.insert(&[dummy_quad(), default_graph_quad]);
    assert_eq!(count, 2);
    assert_eq!(perms.len(), 2);
    assert!(perms.contains_named_graph(oid(1)));
    assert!(!perms.contains_named_graph(oid(0)));
    assert_eq!(perms.named_graphs(), vec![oid(1)]);
    let gpos = perms.find_index(IndexComponents::GPOS()).unwrap();
    assert!(gpos.quads.contains(&IndexQuad([oid(1), oid(3), oid(4), oid(2)])));
    assert!(perms.find_index(IndexComponents::SPOG()).is_none());
}

#[test]
fn permutations_choose_the_index_with_the_longest_bound_prefix() {
    let perms = permutations();
    // graph and object bound: GOSP scores 12, GSPO and GPOS 9 and 10
    let chosen = perms.choose_index(&Pattern([true, false, false, true]));
    assert!(same_components(&chosen, &IndexComponents::GOSP()));
    // nothing bound: all tie, the first wins
    let chosen = perms.choose_index(&Pattern([false, false, false, false]));
    assert!(same_components(&chosen, &IndexComponents::GSPO()));
}

#[test]
fn permutations_remove_clear_and_drop_graphs() {
    let mut perms = permutations();
    let other = EncodedQuad { graph_name: oid(9), subject: oid(5), predicate: oid(6), object: oid(7) };
    perms.insert(&[dummy_quad(), other]);
    assert_eq!(perms.remove(&[other]), 1);
    assert!(perms.insert_named_graph(oid(8)));
    assert!(!perms.insert_named_graph(oid(8)));
    assert!(perms.drop_named_graph(&oid(1)));
    assert_eq!(perms.len(), 0);
    assert!(!perms.contains_named_graph(oid(1)));
    perms.insert(&[dummy_quad()]);
    perms.clear_graph(&oid(1));
    assert_eq!(perms.len(), 0);
    perms.insert(&[dummy_quad()]);
    perms.clear();
    assert_eq!(perms.len(), 0);
    assert!(perms.contains_named_graph(oid(1)));
}

#[test]
fn pattern_scan_score_of_a_fully_bound_pattern_in_the_default_graph() {
    let score = IndexComponents::GSPO().pattern_scan_score(
        ActiveGraphKind::DefaultGraph,
        TermPatternKind::NamedNode,
        NamedNodePatternKind::NamedNode,
        TermPatternKind::Literal,
        BlankNodeMatchingMode::Filter,
    );
    assert_eq!(score, 15);
}

#[test]
fn pattern_scan_score_with_a_broken_prefix() {
    let score = IndexComponents::GSPO().pattern_scan_score(
        ActiveGraphKind::DefaultGraph,
        TermPatternKind::Variable,
        NamedNodePatternKind::NamedNode,
        TermPatternKind::NamedNode,
        BlankNodeMatchingMode::Filter,
    );
    assert_eq!(score, 11);
}

#[test]
fn pattern_scan_score_over_all_graphs_leaves_the_graph_unbound() {
    let score = IndexComponents::GSPO().pattern_scan_score(
        ActiveGraphKind::AllGraphs,
        TermPatternKind::NamedNode,
        NamedNodePatternKind::NamedNode,
        TermPatternKind::NamedNode,
        BlankNodeMatchingMode::Filter,
    );
    assert_eq!(score, 7);
}

#[test]
fn a_union_of_graphs_binds_the_graph_and_blank_nodes_bind_only_when_filtering() {
    assert!(is_graph_bound(ActiveGraphKind::Union));
    assert!(is_graph_bound(ActiveGraphKind::DefaultGraph));
    assert!(!is_graph_bound(ActiveGraphKind::AnyNamedGraph));
    assert!(!is_named_node_bound(NamedNodePatternKind::Variable, BlankNodeMatchingMode::Filter));
    let score = IndexComponents::GSPO().pattern_scan_score(
        ActiveGraphKind::Union,
        TermPatternKind::BlankNode,
        NamedNodePatternKind::Variable,
        TermPatternKind::Variable,
        BlankNodeMatchingMode::Variable,
    );
    assert_eq!(score, 8);
}

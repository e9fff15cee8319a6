//! The traits that the indexes of a set of index permutations implement, with the model
//! their contracts speak of: an index is a set of quads laid out in its order, the named graph
//! storage a set of graph names. Each implementation states its model by giving the model
//! functions a body; where it does not, they are left unspecified.

use crate::index::{IndexComponents, IndexQuad, QuadComponent};
use vstd::prelude::*;

verus! {

/// A term of an encoded quad.
pub trait EncodedTerm: Copy {
    /// Whether the term stands for the default graph (each implementation states it; left
    /// unspecified otherwise).
    closed spec fn denotes_default_graph(&self) -> bool {
        arbitrary()
    }

    /// Whether the term is the default graph.
    fn is_default_graph(&self) -> (r: bool)
        ensures
            r == self.denotes_default_graph(),
    ;
}

/// The storage that keeps the named graphs of a set of indexes: a set of graph names.
pub trait NamedGraphStorage<TTerm> {
    /// The named graphs that are kept (each implementation states it; left unspecified
    /// otherwise).
    closed spec fn graph_set(&self) -> Set<TTerm> {
        arbitrary()
    }

    /// Adds a named graph; whether it was new.
    fn insert(&mut self, graph_name: TTerm) -> (r: bool)
        ensures
            final(self).graph_set() == old(self).graph_set().insert(graph_name),
            r == !old(self).graph_set().contains(graph_name),
    ;

    /// Whether the named graph is kept.
    fn contains(&self, graph_name: &TTerm) -> (r: bool)
        ensures
            r == self.graph_set().contains(*graph_name),
    ;

    /// Removes a named graph; whether it was there.
    fn remove(&mut self, graph_name: &TTerm) -> (r: bool)
        ensures
            final(self).graph_set() == old(self).graph_set().remove(*graph_name),
            r == old(self).graph_set().contains(*graph_name),
    ;

    /// The named graphs that are kept, each once.
    fn graph_names(&self) -> (r: Vec<TTerm>)
        ensures
            r@.to_set() == self.graph_set(),
            r@.no_duplicates(),
    ;
}

/// The instructions for scanning an index, which can be laid out for another index order.
pub trait ScanInstructions: Sized {
    /// The same instructions laid out for an index with the given components (each
    /// implementation states it; left unspecified otherwise).
    closed spec fn reordered(&self, components: IndexComponents) -> Self {
        arbitrary()
    }

    /// The same instructions for an index with the given components.
    fn reorder(&self, components: IndexComponents) -> (r: Self)
        ensures
            r == self.reordered(components),
    ;
}

/// Where the graph name stands in a quad laid out in the given order.
pub open spec fn graph_position(c: Seq<QuadComponent>) -> int {
    if c[0] == QuadComponent::GraphName {
        0
    } else if c[1] == QuadComponent::GraphName {
        1
    } else if c[2] == QuadComponent::GraphName {
        2
    } else {
        3
    }
}

/// The quads of a list, each as its terms in the order of the index.
pub open spec fn index_quad_set<TTerm: EncodedTerm>(qs: Seq<IndexQuad<TTerm>>) -> Set<Seq<TTerm>> {
    Set::new(|s: Seq<TTerm>| exists|k: int| 0 <= k < qs.len() && qs[k].0@ == s)
}

/// The quads of a set whose graph is not `g`, for an index in the order `c`.
pub open spec fn without_graph<TTerm>(quads: Set<Seq<TTerm>>, c: IndexComponents, g: TTerm) -> Set<Seq<TTerm>> {
    quads.filter(|q: Seq<TTerm>| q[graph_position(c.components())] != g)
}

/// An index of quads, sorted by one order of the quad components: a set of quads, each laid
/// out in that order.
pub trait QuadIndex {
    type Term: EncodedTerm;
    type NamedGraphStorage: NamedGraphStorage<Self::Term>;
    type ScanInstructions: ScanInstructions;

    /// The order in which the index sorts (each implementation states it; left unspecified
    /// otherwise).
    closed spec fn order(&self) -> IndexComponents {
        arbitrary()
    }

    /// The quads of the index, laid out in its order (each implementation states it; left
    /// unspecified otherwise).
    closed spec fn quads(&self) -> Set<Seq<Self::Term>> {
        arbitrary()
    }

    /// The order in which the index sorts.
    fn components(&self) -> (r: IndexComponents)
        ensures
            r == self.order(),
    ;

    /// The number of quads in the index.
    fn len(&self) -> (r: usize)
        ensures
            r == self.quads().len(),
    ;

    /// Inserts quads laid out for this index; the resulting number of quads.
    fn insert(&mut self, quads: Vec<IndexQuad<Self::Term>>) -> (r: usize)
        ensures
            final(self).order() == old(self).order(),
            final(self).quads() == old(self).quads().union(index_quad_set(quads@)),
            r == final(self).quads().len(),
    ;

    /// Removes quads laid out for this index; the resulting number of quads.
    fn remove(&mut self, quads: Vec<IndexQuad<Self::Term>>) -> (r: usize)
        ensures
            final(self).order() == old(self).order(),
            final(self).quads() == old(self).quads().difference(index_quad_set(quads@)),
            r == final(self).quads().len(),
    ;

    /// Removes every quad.
    fn clear(&mut self)
        ensures
            final(self).order() == old(self).order(),
            final(self).quads() == Set::<Seq<Self::Term>>::empty(),
    ;

    /// Removes the quads of one graph.
    fn clear_graph(&mut self, graph_name: Self::Term)
        ensures
            final(self).order() == old(self).order(),
            final(self).quads() == without_graph(old(self).quads(), old(self).order(), graph_name),
    ;

    /// How well this index serves a scan with the given instructions: the higher, the better
    /// (each implementation states it; left unspecified otherwise).
    closed spec fn score_of(&self, pattern: Self::ScanInstructions) -> usize {
        arbitrary()
    }

    /// How well this index serves a scan with the given instructions.
    fn compute_scan_score(&self, pattern: &Self::ScanInstructions) -> (r: usize)
        ensures
            r == self.score_of(*pattern),
    ;
}

} // verus!

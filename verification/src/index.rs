//! Quad indexes: the orders in which an index sorts the components of a quad, how a quad is
//! laid out for an index, how well an index serves a scan, and a set of index permutations.

pub use crate::quad_index::{EncodedTerm, NamedGraphStorage, QuadIndex, ScanInstructions};
use vstd::prelude::*;

verus! {

/// A component of a quad.
#[derive(Debug, Clone, Copy, PartialEq, Eq, Hash, Structural)]
pub enum QuadComponent {
    GraphName,
    Subject,
    Predicate,
    Object,
}

/// The name of the column that holds a component.
pub open spec fn column_name_of(c: QuadComponent) -> Seq<char> {
    match c {
        QuadComponent::GraphName => "graph"@,
        QuadComponent::Subject => "subject"@,
        QuadComponent::Predicate => "predicate"@,
        QuadComponent::Object => "object"@,
    }
}

impl QuadComponent {
    /// The name of the column that holds the component.
    pub fn column_name(&self) -> (r: &'static str)
        ensures
            r@ == column_name_of(*self),
    {
        match self {
            QuadComponent::GraphName => "graph",
            QuadComponent::Subject => "subject",
            QuadComponent::Predicate => "predicate",
            QuadComponent::Object => "object",
        }
    }
}

/// Whether the components of a sequence are pairwise distinct.
pub open spec fn distinct_components(c: Seq<QuadComponent>) -> bool {
    forall|i: int, j: int| 0 <= i < j < c.len() ==> c[i] != c[j]
}

/// The order of the four *distinct* components that an index sorts by.
#[derive(Debug, Clone, Copy, PartialEq, Eq, Hash)]
pub struct IndexComponents([QuadComponent; 4]);

/// The error of creating index components that name a component more than once.
#[derive(Debug, Clone, Copy, PartialEq, Eq)]
pub struct IndexComponentsCreationError;

impl IndexComponentsCreationError {
    /// The error's message.
    pub fn to_string(&self) -> (r: String)
        ensures
            r@ == "Duplicate indexed component given."@,
    {
        "Duplicate indexed component given.".to_string()
    }
}

/// The 24 orders of the four components, subject first, then predicate, object and graph
/// name first.
pub open spec fn listed_orders() -> Seq<Seq<QuadComponent>> {
    seq![
        seq![QuadComponent::Subject, QuadComponent::Predicate, QuadComponent::Object, QuadComponent::GraphName],
        seq![QuadComponent::Subject, QuadComponent::Predicate, QuadComponent::GraphName, QuadComponent::Object],
        seq![QuadComponent::Subject, QuadComponent::Object, QuadComponent::Predicate, QuadComponent::GraphName],
        seq![QuadComponent::Subject, QuadComponent::Object, QuadComponent::GraphName, QuadComponent::Predicate],
        seq![QuadComponent::Subject, QuadComponent::GraphName, QuadComponent::Predicate, QuadComponent::Object],
        seq![QuadComponent::Subject, QuadComponent::GraphName, QuadComponent::Object, QuadComponent::Predicate],
        seq![QuadComponent::Predicate, QuadComponent::Subject, QuadComponent::Object, QuadComponent::GraphName],
        seq![QuadComponent::Predicate, QuadComponent::Subject, QuadComponent::GraphName, QuadComponent::Object],
        seq![QuadComponent::Predicate, QuadComponent::Object, QuadComponent::Subject, QuadComponent::GraphName],
        seq![QuadComponent::Predicate, QuadComponent::Object, QuadComponent::GraphName, QuadComponent::Subject],
        seq![QuadComponent::Predicate, QuadComponent::GraphName, QuadComponent::Subject, QuadComponent::Object],
        seq![QuadComponent::Predicate, QuadComponent::GraphName, QuadComponent::Object, QuadComponent::Subject],
        seq![QuadComponent::Object, QuadComponent::Subject, QuadComponent::Predicate, QuadComponent::GraphName],
        seq![QuadComponent::Object, QuadComponent::Subject, QuadComponent::GraphName, QuadComponent::Predicate],
        seq![QuadComponent::Object, QuadComponent::Predicate, QuadComponent::Subject, QuadComponent::GraphName],
        seq![QuadComponent::Object, QuadComponent::Predicate, QuadComponent::GraphName, QuadComponent::Subject],
        seq![QuadComponent::Object, QuadComponent::GraphName, QuadComponent::Subject, QuadComponent::Predicate],
        seq![QuadComponent::Object, QuadComponent::GraphName, QuadComponent::Predicate, QuadComponent::Subject],
        seq![QuadComponent::GraphName, QuadComponent::Subject, QuadComponent::Predicate, QuadComponent::Object],
        seq![QuadComponent::GraphName, QuadComponent::Subject, QuadComponent::Object, QuadComponent::Predicate],
        seq![QuadComponent::GraphName, QuadComponent::Predicate, QuadComponent::Subject, QuadComponent::Object],
        seq![QuadComponent::GraphName, QuadComponent::Predicate, QuadComponent::Object, QuadComponent::Subject],
        seq![QuadComponent::GraphName, QuadComponent::Object, QuadComponent::Subject, QuadComponent::Predicate],
        seq![QuadComponent::GraphName, QuadComponent::Object, QuadComponent::Predicate, QuadComponent::Subject],
    ]
}

impl IndexComponents {
    /// The components, in index order.
    pub closed spec fn components(&self) -> Seq<QuadComponent> {
        self.0@
    }

    #[verifier::type_invariant]
    spec fn components_distinct(&self) -> bool {
        distinct_components(self.0@)
    }

    /// The SPOG index.
    #[allow(non_snake_case)]
    pub fn SPOG() -> (r: IndexComponents)
        ensures
            r.components() == seq![QuadComponent::Subject, QuadComponent::Predicate, QuadComponent::Object, QuadComponent::GraphName],
    {
        IndexComponents([QuadComponent::Subject, QuadComponent::Predicate, QuadComponent::Object, QuadComponent::GraphName])
    }

    /// The SPGO index.
    #[allow(non_snake_case)]
    pub fn SPGO() -> (r: IndexComponents)
        ensures
            r.components() == seq![QuadComponent::Subject, QuadComponent::Predicate, QuadComponent::GraphName, QuadComponent::Object],
    {
        IndexComponents([QuadComponent::Subject, QuadComponent::Predicate, QuadComponent::GraphName, QuadComponent::Object])
    }

    /// The SOPG index.
    #[allow(non_snake_case)]
    pub fn SOPG() -> (r: IndexComponents)
        ensures
            r.components() == seq![QuadComponent::Subject, QuadComponent::Object, QuadComponent::Predicate, QuadComponent::GraphName],
    {
        IndexComponents([QuadComponent::Subject, QuadComponent::Object, QuadComponent::Predicate, QuadComponent::GraphName])
    }

    /// The SOGP index.
    #[allow(non_snake_case)]
    pub fn SOGP() -> (r: IndexComponents)
        ensures
            r.components() == seq![QuadComponent::Subject, QuadComponent::Object, QuadComponent::GraphName, QuadComponent::Predicate],
    {
        IndexComponents([QuadComponent::Subject, QuadComponent::Object, QuadComponent::GraphName, QuadComponent::Predicate])
    }

    /// The SGPO index.
    #[allow(non_snake_case)]
    pub fn SGPO() -> (r: IndexComponents)
        ensures
            r.components() == seq![QuadComponent::Subject, QuadComponent::GraphName, QuadComponent::Predicate, QuadComponent::Object],
    {
        IndexComponents([QuadComponent::Subject, QuadComponent::GraphName, QuadComponent::Predicate, QuadComponent::Object])
    }

    /// The SGOP index.
    #[allow(non_snake_case)]
    pub fn SGOP() -> (r: IndexComponents)
        ensures
            r.components() == seq![QuadComponent::Subject, QuadComponent::GraphName, QuadComponent::Object, QuadComponent::Predicate],
    {
        IndexComponents([QuadComponent::Subject, QuadComponent::GraphName, QuadComponent::Object, QuadComponent::Predicate])
    }

    /// The PSOG index.
    #[allow(non_snake_case)]
    pub fn PSOG() -> (r: IndexComponents)
        ensures
            r.components() == seq![QuadComponent::Predicate, QuadComponent::Subject, QuadComponent::Object, QuadComponent::GraphName],
    {
        IndexComponents([QuadComponent::Predicate, QuadComponent::Subject, QuadComponent::Object, QuadComponent::GraphName])
    }

    /// The PSGO index.
    #[allow(non_snake_case)]
    pub fn PSGO() -> (r: IndexComponents)
        ensures
            r.components() == seq![QuadComponent::Predicate, QuadComponent::Subject, QuadComponent::GraphName, QuadComponent::Object],
    {
        IndexComponents([QuadComponent::Predicate, QuadComponent::Subject, QuadComponent::GraphName, QuadComponent::Object])
    }

    /// The POSG index.
    #[allow(non_snake_case)]
    pub fn POSG() -> (r: IndexComponents)
        ensures
            r.components() == seq![QuadComponent::Predicate, QuadComponent::Object, QuadComponent::Subject, QuadComponent::GraphName],
    {
        IndexComponents([QuadComponent::Predicate, QuadComponent::Object, QuadComponent::Subject, QuadComponent::GraphName])
    }

    /// The POGS index.
    #[allow(non_snake_case)]
    pub fn POGS() -> (r: IndexComponents)
        ensures
            r.components() == seq![QuadComponent::Predicate, QuadComponent::Object, QuadComponent::GraphName, QuadComponent::Subject],
    {
        IndexComponents([QuadComponent::Predicate, QuadComponent::Object, QuadComponent::GraphName, QuadComponent::Subject])
    }

    /// The PGSO index.
    #[allow(non_snake_case)]
    pub fn PGSO() -> (r: IndexComponents)
        ensures
            r.components() == seq![QuadComponent::Predicate, QuadComponent::GraphName, QuadComponent::Subject, QuadComponent::Object],
    {
        IndexComponents([QuadComponent::Predicate, QuadComponent::GraphName, QuadComponent::Subject, QuadComponent::Object])
    }

    /// The PGOS index.
    #[allow(non_snake_case)]
    pub fn PGOS() -> (r: IndexComponents)
        ensures
            r.components() == seq![QuadComponent::Predicate, QuadComponent::GraphName, QuadComponent::Object, QuadComponent::Subject],
    {
        IndexComponents([QuadComponent::Predicate, QuadComponent::GraphName, QuadComponent::Object, QuadComponent::Subject])
    }

    /// The OSPG index.
    #[allow(non_snake_case)]
    pub fn OSPG() -> (r: IndexComponents)
        ensures
            r.components() == seq![QuadComponent::Object, QuadComponent::Subject, QuadComponent::Predicate, QuadComponent::GraphName],
    {
        IndexComponents([QuadComponent::Object, QuadComponent::Subject, QuadComponent::Predicate, QuadComponent::GraphName])
    }

    /// The OSGP index.
    #[allow(non_snake_case)]
    pub fn OSGP() -> (r: IndexComponents)
        ensures
            r.components() == seq![QuadComponent::Object, QuadComponent::Subject, QuadComponent::GraphName, QuadComponent::Predicate],
    {
        IndexComponents([QuadComponent::Object, QuadComponent::Subject, QuadComponent::GraphName, QuadComponent::Predicate])
    }

    /// The OPSG index.
    #[allow(non_snake_case)]
    pub fn OPSG() -> (r: IndexComponents)
        ensures
            r.components() == seq![QuadComponent::Object, QuadComponent::Predicate, QuadComponent::Subject, QuadComponent::GraphName],
    {
        IndexComponents([QuadComponent::Object, QuadComponent::Predicate, QuadComponent::Subject, QuadComponent::GraphName])
    }

    /// The OPGS index.
    #[allow(non_snake_case)]
    pub fn OPGS() -> (r: IndexComponents)
        ensures
            r.components() == seq![QuadComponent::Object, QuadComponent::Predicate, QuadComponent::GraphName, QuadComponent::Subject],
    {
        IndexComponents([QuadComponent::Object, QuadComponent::Predicate, QuadComponent::GraphName, QuadComponent::Subject])
    }

    /// The OGSP index.
    #[allow(non_snake_case)]
    pub fn OGSP() -> (r: IndexComponents)
        ensures
            r.components() == seq![QuadComponent::Object, QuadComponent::GraphName, QuadComponent::Subject, QuadComponent::Predicate],
    {
        IndexComponents([QuadComponent::Object, QuadComponent::GraphName, QuadComponent::Subject, QuadComponent::Predicate])
    }

    /// The OGPS index.
    #[allow(non_snake_case)]
    pub fn OGPS() -> (r: IndexComponents)
        ensures
            r.components() == seq![QuadComponent::Object, QuadComponent::GraphName, QuadComponent::Predicate, QuadComponent::Subject],
    {
        IndexComponents([QuadComponent::Object, QuadComponent::GraphName, QuadComponent::Predicate, QuadComponent::Subject])
    }

    /// The GSPO index.
    #[allow(non_snake_case)]
    pub fn GSPO() -> (r: IndexComponents)
        ensures
            r.components() == seq![QuadComponent::GraphName, QuadComponent::Subject, QuadComponent::Predicate, QuadComponent::Object],
    {
        IndexComponents([QuadComponent::GraphName, QuadComponent::Subject, QuadComponent::Predicate, QuadComponent::Object])
    }

    /// The GSOP index.
    #[allow(non_snake_case)]
    pub fn GSOP() -> (r: IndexComponents)
        ensures
            r.components() == seq![QuadComponent::GraphName, QuadComponent::Subject, QuadComponent::Object, QuadComponent::Predicate],
    {
        IndexComponents([QuadComponent::GraphName, QuadComponent::Subject, QuadComponent::Object, QuadComponent::Predicate])
    }

    /// The GPSO index.
    #[allow(non_snake_case)]
    pub fn GPSO() -> (r: IndexComponents)
        ensures
            r.components() == seq![QuadComponent::GraphName, QuadComponent::Predicate, QuadComponent::Subject, QuadComponent::Object],
    {
        IndexComponents([QuadComponent::GraphName, QuadComponent::Predicate, QuadComponent::Subject, QuadComponent::Object])
    }

    /// The GPOS index.
    #[allow(non_snake_case)]
    pub fn GPOS() -> (r: IndexComponents)
        ensures
            r.components() == seq![QuadComponent::GraphName, QuadComponent::Predicate, QuadComponent::Object, QuadComponent::Subject],
    {
        IndexComponents([QuadComponent::GraphName, QuadComponent::Predicate, QuadComponent::Object, QuadComponent::Subject])
    }

    /// The GOSP index.
    #[allow(non_snake_case)]
    pub fn GOSP() -> (r: IndexComponents)
        ensures
            r.components() == seq![QuadComponent::GraphName, QuadComponent::Object, QuadComponent::Subject, QuadComponent::Predicate],
    {
        IndexComponents([QuadComponent::GraphName, QuadComponent::Object, QuadComponent::Subject, QuadComponent::Predicate])
    }

    /// The GOPS index.
    #[allow(non_snake_case)]
    pub fn GOPS() -> (r: IndexComponents)
        ensures
            r.components() == seq![QuadComponent::GraphName, QuadComponent::Object, QuadComponent::Predicate, QuadComponent::Subject],
    {
        IndexComponents([QuadComponent::GraphName, QuadComponent::Object, QuadComponent::Predicate, QuadComponent::Subject])
    }

    /// All 24 orders of the four components.
    pub fn list_all() -> (r: Vec<IndexComponents>)
        ensures
            r.len() == 24,
            forall|i: int| 0 <= i < 24 ==> (#[trigger] r[i]).components() == listed_orders()[i],
    {
        let mut v: Vec<IndexComponents> = Vec::new();
        v.push(IndexComponents::SPOG());
        v.push(IndexComponents::SPGO());
        v.push(IndexComponents::SOPG());
        v.push(IndexComponents::SOGP());
        v.push(IndexComponents::SGPO());
        v.push(IndexComponents::SGOP());
        v.push(IndexComponents::PSOG());
        v.push(IndexComponents::PSGO());
        v.push(IndexComponents::POSG());
        v.push(IndexComponents::POGS());
        v.push(IndexComponents::PGSO());
        v.push(IndexComponents::PGOS());
        v.push(IndexComponents::OSPG());
        v.push(IndexComponents::OSGP());
        v.push(IndexComponents::OPSG());
        v.push(IndexComponents::OPGS());
        v.push(IndexComponents::OGSP());
        v.push(IndexComponents::OGPS());
        v.push(IndexComponents::GSPO());
        v.push(IndexComponents::GSOP());
        v.push(IndexComponents::GPSO());
        v.push(IndexComponents::GPOS());
        v.push(IndexComponents::GOSP());
        v.push(IndexComponents::GOPS());
        assert(v@.map_values(|c: IndexComponents| c.components()) =~= listed_orders());
        v
    }

    /// The components, in index order.
    pub fn inner(&self) -> (r: [QuadComponent; 4])
        ensures
            r@ == self.components(),
            distinct_components(r@),
    {
        proof {
            use_type_invariant(self);
        }
        self.0
    }

    /// The names of the columns an index of this order is sorted by, most significant first
    /// (ascending, with nulls first).
    pub fn sort_column_names(&self) -> (r: Vec<&'static str>)
        ensures
            r.len() == 4,
            forall|i: int| 0 <= i < 4 ==> (#[trigger] r[i])@ == column_name_of(self.components()[i]),
    {
        let c = self.inner();
        let mut v: Vec<&'static str> = Vec::new();
        v.push(c[0].column_name());
        v.push(c[1].column_name());
        v.push(c[2].column_name());
        v.push(c[3].column_name());
        v
    }

    /// Creates index components; fails when a component appears more than once.
    pub fn try_new(components: [QuadComponent; 4]) -> (r: Result<Self, IndexComponentsCreationError>)
        ensures
            distinct_components(components@) <==> r is Ok,
            r matches Ok(c) ==> c.components() == components@,
    {
        let mut i: usize = 0;
        while i < 4
            invariant
                i <= 4,
                forall|a: int, b: int| 0 <= a < b < 4 && a < i ==> components@[a] != components@[b],
            decreases 4 - i,
        {
            let mut j: usize = i + 1;
            while j < 4
                invariant
                    i < 4,
                    i < j <= 4,
                    forall|a: int, b: int| 0 <= a < b < 4 && a < i ==> components@[a] != components@[b],
                    forall|b: int| i < b < j ==> components@[i as int] != components@[b],
                decreases 4 - j,
            {
                if components[i] == components[j] {
                    return Err(IndexComponentsCreationError);
                }
                j = j + 1;
            }
            i = i + 1;
        }
        Ok(IndexComponents(components))
    }
}

/// Whether a quad component is bound by a scan.
pub open spec fn is_bound(
    c: QuadComponent,
    graph_bound: bool,
    subject_bound: bool,
    predicate_bound: bool,
    object_bound: bool,
) -> bool {
    match c {
        QuadComponent::GraphName => graph_bound,
        QuadComponent::Subject => subject_bound,
        QuadComponent::Predicate => predicate_bound,
        QuadComponent::Object => object_bound,
    }
}

/// The weight of position `i` of an index order: `2^(3 - i)`.
pub open spec fn position_weight(i: int) -> nat {
    if i == 0 {
        8
    } else if i == 1 {
        4
    } else if i == 2 {
        2
    } else {
        1
    }
}

/// What position `i` of an index order adds to a scan score: its weight when the component
/// there is bound, else nothing.
#[verifier::opaque]
pub open spec fn score_term(
    c: Seq<QuadComponent>,
    i: int,
    graph_bound: bool,
    subject_bound: bool,
    predicate_bound: bool,
    object_bound: bool,
) -> nat {
    if is_bound(c[i], graph_bound, subject_bound, predicate_bound, object_bound) {
        position_weight(i)
    } else {
        0
    }
}

/// How well an index order serves a scan: each bound component adds the weight of its
/// position, so components earlier in the order count for more than all later ones together.
pub open spec fn scan_score_of(
    c: Seq<QuadComponent>,
    graph_bound: bool,
    subject_bound: bool,
    predicate_bound: bool,
    object_bound: bool,
) -> nat {
    score_term(c, 0, graph_bound, subject_bound, predicate_bound, object_bound) + score_term(
        c,
        1,
        graph_bound,
        subject_bound,
        predicate_bound,
        object_bound,
    ) + score_term(c, 2, graph_bound, subject_bound, predicate_bound, object_bound) + score_term(
        c,
        3,
        graph_bound,
        subject_bound,
        predicate_bound,
        object_bound,
    )
}

impl IndexComponents {
    /// Computes the scan score of this index for a scan that binds the given components.
    ///
    /// Bound components after an unbound one still count: they improve the clustering of the
    /// scanned rows even though the scan is no longer a slice of the index.
    pub fn scan_score(
        &self,
        graph_bound: bool,
        subject_bound: bool,
        predicate_bound: bool,
        object_bound: bool,
    ) -> (r: usize)
        ensures
            r == scan_score_of(
                self.components(),
                graph_bound,
                subject_bound,
                predicate_bound,
                object_bound,
            ),
            r <= 15,
    {
        proof {
            reveal(score_term);
        }
        let mut score: usize = 0;
        let mut i: usize = 0;
        while i < 4
            invariant
                i <= 4,
                self.components().len() == 4,
                score == (if 0 < i { score_term(self.components(), 0, graph_bound, subject_bound, predicate_bound, object_bound) } else { 0 })
                    + (if 1 < i { score_term(self.components(), 1, graph_bound, subject_bound, predicate_bound, object_bound) } else { 0 })
                    + (if 2 < i { score_term(self.components(), 2, graph_bound, subject_bound, predicate_bound, object_bound) } else { 0 })
                    + (if 3 < i { score_term(self.components(), 3, graph_bound, subject_bound, predicate_bound, object_bound) } else { 0 }),
            decreases 4 - i,
        {
            proof {
                reveal(score_term);
            }
            let component = self.0[i];
            let bound = match component {
                QuadComponent::GraphName => graph_bound,
                QuadComponent::Subject => subject_bound,
                QuadComponent::Predicate => predicate_bound,
                QuadComponent::Object => object_bound,
            };
            if bound {
                let position: usize = 3 - i;
                let weight: usize = 1usize << position;
                proof {
                    assert(position < 4 ==> (1usize << position) == if position == 3 {
                        8usize
                    } else if position == 2 {
                        4usize
                    } else if position == 1 {
                        2usize
                    } else {
                        1usize
                    }) by (bit_vector);
                }
                score = score + weight;
            }
            i = i + 1;
        }
        score
    }
}

/// A scan that binds every component scores 15 on any index; one that binds none scores 0.
pub proof fn lemma_scan_score_extremes(c: IndexComponents)
    ensures
        scan_score_of(c.components(), true, true, true, true) == 15,
        scan_score_of(c.components(), false, false, false, false) == 0,
{
    reveal(score_term);
}

/// Binding more components never lowers the score, and binding strictly more raises it.
#[verifier::spinoff_prover]
pub proof fn lemma_scan_score_monotonic(
    c: IndexComponents,
    g1: bool,
    s1: bool,
    p1: bool,
    o1: bool,
    g2: bool,
    s2: bool,
    p2: bool,
    o2: bool,
)
    requires
        c.components().len() == 4,
        distinct_components(c.components()),
        g1 ==> g2,
        s1 ==> s2,
        p1 ==> p2,
        o1 ==> o2,
    ensures
        scan_score_of(c.components(), g1, s1, p1, o1) <= scan_score_of(c.components(), g2, s2, p2, o2),
        (g1 != g2 || s1 != s2 || p1 != p2 || o1 != o2) ==> scan_score_of(c.components(), g1, s1, p1, o1)
            < scan_score_of(c.components(), g2, s2, p2, o2),
{
    let cs = c.components();
    lemma_all_components_present(cs);
    lemma_score_term_le(cs, 0, g1, s1, p1, o1, g2, s2, p2, o2);
    lemma_score_term_le(cs, 1, g1, s1, p1, o1, g2, s2, p2, o2);
    lemma_score_term_le(cs, 2, g1, s1, p1, o1, g2, s2, p2, o2);
    lemma_score_term_le(cs, 3, g1, s1, p1, o1, g2, s2, p2, o2);
    if g1 != g2 {
        let k = position_of(cs, QuadComponent::GraphName);
        lemma_score_term_lt(cs, k, g1, s1, p1, o1, g2, s2, p2, o2);
        lemma_sum_strict(cs, k, g1, s1, p1, o1, g2, s2, p2, o2);
    } else if s1 != s2 {
        let k = position_of(cs, QuadComponent::Subject);
        lemma_score_term_lt(cs, k, g1, s1, p1, o1, g2, s2, p2, o2);
        lemma_sum_strict(cs, k, g1, s1, p1, o1, g2, s2, p2, o2);
    } else if p1 != p2 {
        let k = position_of(cs, QuadComponent::Predicate);
        lemma_score_term_lt(cs, k, g1, s1, p1, o1, g2, s2, p2, o2);
        lemma_sum_strict(cs, k, g1, s1, p1, o1, g2, s2, p2, o2);
    } else if o1 != o2 {
        let k = position_of(cs, QuadComponent::Object);
        lemma_score_term_lt(cs, k, g1, s1, p1, o1, g2, s2, p2, o2);
        lemma_sum_strict(cs, k, g1, s1, p1, o1, g2, s2, p2, o2);
    }
}

proof fn lemma_score_term_le(
    cs: Seq<QuadComponent>,
    i: int,
    g1: bool,
    s1: bool,
    p1: bool,
    o1: bool,
    g2: bool,
    s2: bool,
    p2: bool,
    o2: bool,
)
    requires
        g1 ==> g2,
        s1 ==> s2,
        p1 ==> p2,
        o1 ==> o2,
    ensures
        score_term(cs, i, g1, s1, p1, o1) <= score_term(cs, i, g2, s2, p2, o2),
{
    reveal(score_term);
}

proof fn lemma_score_term_lt(
    cs: Seq<QuadComponent>,
    k: int,
    g1: bool,
    s1: bool,
    p1: bool,
    o1: bool,
    g2: bool,
    s2: bool,
    p2: bool,
    o2: bool,
)
    requires
        0 <= k < 4,
        is_bound(cs[k], g2, s2, p2, o2),
        !is_bound(cs[k], g1, s1, p1, o1),
    ensures
        score_term(cs, k, g1, s1, p1, o1) < score_term(cs, k, g2, s2, p2, o2),
{
    reveal(score_term);
}

proof fn lemma_sum_strict(
    cs: Seq<QuadComponent>,
    k: int,
    g1: bool,
    s1: bool,
    p1: bool,
    o1: bool,
    g2: bool,
    s2: bool,
    p2: bool,
    o2: bool,
)
    requires
        0 <= k < 4,
        score_term(cs, k, g1, s1, p1, o1) < score_term(cs, k, g2, s2, p2, o2),
        score_term(cs, 0, g1, s1, p1, o1) <= score_term(cs, 0, g2, s2, p2, o2),
        score_term(cs, 1, g1, s1, p1, o1) <= score_term(cs, 1, g2, s2, p2, o2),
        score_term(cs, 2, g1, s1, p1, o1) <= score_term(cs, 2, g2, s2, p2, o2),
        score_term(cs, 3, g1, s1, p1, o1) <= score_term(cs, 3, g2, s2, p2, o2),
    ensures
        scan_score_of(cs, g1, s1, p1, o1) < scan_score_of(cs, g2, s2, p2, o2),
{
    let a0 = score_term(cs, 0, g1, s1, p1, o1);
    let a1 = score_term(cs, 1, g1, s1, p1, o1);
    let a2 = score_term(cs, 2, g1, s1, p1, o1);
    let a3 = score_term(cs, 3, g1, s1, p1, o1);
    let b0 = score_term(cs, 0, g2, s2, p2, o2);
    let b1 = score_term(cs, 1, g2, s2, p2, o2);
    let b2 = score_term(cs, 2, g2, s2, p2, o2);
    let b3 = score_term(cs, 3, g2, s2, p2, o2);
    assert(a0 + a1 + a2 + a3 < b0 + b1 + b2 + b3) by {
        if k == 0 {
            assert(a0 < b0);
        } else if k == 1 {
            assert(a1 < b1);
        } else if k == 2 {
            assert(a2 < b2);
        } else {
            assert(a3 < b3);
        }
    }
}

proof fn position_of(cs: Seq<QuadComponent>, x: QuadComponent) -> (k: int)
    requires
        cs.len() == 4,
        cs.contains(x),
    ensures
        0 <= k < 4,
        cs[k] == x,
{
    choose|k: int| 0 <= k < cs.len() && cs[k] == x
}

proof fn lemma_all_components_present(cs: Seq<QuadComponent>)
    requires
        cs.len() == 4,
        distinct_components(cs),
    ensures
        cs.contains(QuadComponent::GraphName),
        cs.contains(QuadComponent::Subject),
        cs.contains(QuadComponent::Predicate),
        cs.contains(QuadComponent::Object),
{
    assert(cs[0] != cs[1] && cs[0] != cs[2] && cs[0] != cs[3] && cs[1] != cs[2] && cs[1] != cs[3] && cs[2] != cs[3]);
    if !cs.contains(QuadComponent::GraphName) {
        assert(cs[0] != QuadComponent::GraphName);
        assert(cs[1] != QuadComponent::GraphName);
        assert(cs[2] != QuadComponent::GraphName);
        assert(cs[3] != QuadComponent::GraphName);
    }
    if !cs.contains(QuadComponent::Subject) {
        assert(cs[0] != QuadComponent::Subject);
        assert(cs[1] != QuadComponent::Subject);
        assert(cs[2] != QuadComponent::Subject);
        assert(cs[3] != QuadComponent::Subject);
    }
    if !cs.contains(QuadComponent::Predicate) {
        assert(cs[0] != QuadComponent::Predicate);
        assert(cs[1] != QuadComponent::Predicate);
        assert(cs[2] != QuadComponent::Predicate);
        assert(cs[3] != QuadComponent::Predicate);
    }
    if !cs.contains(QuadComponent::Object) {
        assert(cs[0] != QuadComponent::Object);
        assert(cs[1] != QuadComponent::Object);
        assert(cs[2] != QuadComponent::Object);
        assert(cs[3] != QuadComponent::Object);
    }
}

/// How blank nodes in a pattern are matched: as variables, or as terms that filter the scan.
#[derive(Debug, Clone, Copy, PartialEq, Eq, Hash, Structural)]
pub enum BlankNodeMatchingMode {
    Variable,
    Filter,
}

/// The kind of term in a position of a triple pattern.
#[derive(Debug, Clone, Copy, PartialEq, Eq, Hash, Structural)]
pub enum TermPatternKind {
    NamedNode,
    Literal,
    BlankNode,
    Variable,
}

/// Whether a term position of a pattern restricts a scan: named nodes and literals do, blank
/// nodes only when they filter, variables never.
pub fn is_term_bound(pattern: TermPatternKind, mode: BlankNodeMatchingMode) -> (r: bool)
    ensures
        r == match pattern {
            TermPatternKind::NamedNode | TermPatternKind::Literal => true,
            TermPatternKind::BlankNode => mode == BlankNodeMatchingMode::Filter,
            TermPatternKind::Variable => false,
        },
{
    match pattern {
        TermPatternKind::NamedNode | TermPatternKind::Literal => true,
        TermPatternKind::BlankNode => mode == BlankNodeMatchingMode::Filter,
        TermPatternKind::Variable => false,
    }
}


/// The kind of term in the predicate position of a triple pattern.
#[derive(Debug, Clone, Copy, PartialEq, Eq, Hash, Structural)]
pub enum NamedNodePatternKind {
    NamedNode,
    Variable,
}

/// Whether the predicate position of a pattern restricts a scan: a named node does, a variable
/// does not.
pub fn is_named_node_bound(pattern: NamedNodePatternKind, _mode: BlankNodeMatchingMode) -> (r: bool)
    ensures
        r == (pattern == NamedNodePatternKind::NamedNode),
{
    match pattern {
        NamedNodePatternKind::NamedNode => true,
        NamedNodePatternKind::Variable => false,
    }
}

/// The kind of graphs a pattern is matched against.
#[derive(Debug, Clone, Copy, PartialEq, Eq, Hash, Structural)]
pub enum ActiveGraphKind {
    /// The default graph.
    DefaultGraph,
    /// Every graph, the default graph and the named ones.
    AllGraphs,
    /// A union of given graphs.
    Union,
    /// Any of the named graphs.
    AnyNamedGraph,
}

/// Whether the graph position restricts a scan: it does for the default graph and for a union
/// of given graphs.
pub fn is_graph_bound(active_graph: ActiveGraphKind) -> (r: bool)
    ensures
        r == (active_graph == ActiveGraphKind::DefaultGraph || active_graph == ActiveGraphKind::Union),
{
    match active_graph {
        ActiveGraphKind::DefaultGraph | ActiveGraphKind::Union => true,
        ActiveGraphKind::AllGraphs | ActiveGraphKind::AnyNamedGraph => false,
    }
}

impl IndexComponents {
    /// The scan score of this index for a triple pattern matched against the active graph:
    /// each position counts as bound as [`is_graph_bound`], [`is_term_bound`] and
    /// [`is_named_node_bound`] say.
    pub fn pattern_scan_score(
        &self,
        active_graph: ActiveGraphKind,
        subject: TermPatternKind,
        predicate: NamedNodePatternKind,
        object: TermPatternKind,
        mode: BlankNodeMatchingMode,
    ) -> (r: usize)
        ensures
            r == scan_score_of(
                self.components(),
                active_graph == ActiveGraphKind::DefaultGraph || active_graph == ActiveGraphKind::Union,
                match subject {
                    TermPatternKind::NamedNode | TermPatternKind::Literal => true,
                    TermPatternKind::BlankNode => mode == BlankNodeMatchingMode::Filter,
                    TermPatternKind::Variable => false,
                },
                predicate == NamedNodePatternKind::NamedNode,
                match object {
                    TermPatternKind::NamedNode | TermPatternKind::Literal => true,
                    TermPatternKind::BlankNode => mode == BlankNodeMatchingMode::Filter,
                    TermPatternKind::Variable => false,
                },
            ),
    {
        let graph_bound = is_graph_bound(active_graph);
        let subject_bound = is_term_bound(subject, mode);
        let predicate_bound = is_named_node_bound(predicate, mode);
        let object_bound = is_term_bound(object, mode);
        self.scan_score(graph_bound, subject_bound, predicate_bound, object_bound)
    }
}

/// A quad with encoded terms.
#[derive(Debug, Clone, Copy, PartialEq, Eq, Hash, PartialOrd, Ord)]
pub struct EncodedQuad<TTerm: EncodedTerm> {
    /// The graph name.
    pub graph_name: TTerm,
    /// The subject.
    pub subject: TTerm,
    /// The predicate.
    pub predicate: TTerm,
    /// The object.
    pub object: TTerm,
}

/// A quad laid out in the order of some index.
#[derive(Debug, Clone, PartialEq, Eq, Hash, PartialOrd, Ord)]
pub struct IndexQuad<TTerm: EncodedTerm>(pub [TTerm; 4]);

/// The term of a quad in a component.
pub open spec fn quad_term<TTerm: EncodedTerm>(q: EncodedQuad<TTerm>, c: QuadComponent) -> TTerm {
    match c {
        QuadComponent::GraphName => q.graph_name,
        QuadComponent::Subject => q.subject,
        QuadComponent::Predicate => q.predicate,
        QuadComponent::Object => q.object,
    }
}

/// A quad's terms in the order of an index.
pub open spec fn index_order<TTerm: EncodedTerm>(q: EncodedQuad<TTerm>, c: Seq<QuadComponent>) -> Seq<TTerm> {
    c.map_values(|x: QuadComponent| quad_term(q, x))
}

impl<TTerm: EncodedTerm> EncodedQuad<TTerm> {
    /// Lays the quad out for an index with the given components.
    pub fn for_index(&self, components: IndexComponents) -> (r: IndexQuad<TTerm>)
        ensures
            r.0@ == index_order(*self, components.components()),
    {
        let c = components.inner();
        let t0 = self.term_for(c[0]);
        let t1 = self.term_for(c[1]);
        let t2 = self.term_for(c[2]);
        let t3 = self.term_for(c[3]);
        let r = IndexQuad([t0, t1, t2, t3]);
        assert(r.0@ =~= index_order(*self, components.components()));
        r
    }

    fn term_for(&self, component: QuadComponent) -> (r: TTerm)
        ensures
            r == quad_term(*self, component),
    {
        match component {
            QuadComponent::GraphName => self.graph_name,
            QuadComponent::Subject => self.subject,
            QuadComponent::Predicate => self.predicate,
            QuadComponent::Object => self.object,
        }
    }
}

/// Lays out each quad for an index, in order.
pub fn quads_for_index<TTerm: EncodedTerm>(quads: &[EncodedQuad<TTerm>], components: IndexComponents) -> (r: Vec<IndexQuad<TTerm>>)
    ensures
        r.len() == quads.len(),
        forall|i: int| 0 <= i < quads.len() ==> #[trigger] r[i].0@ == index_order(quads[i], components.components()),
{
    let mut out: Vec<IndexQuad<TTerm>> = Vec::new();
    let mut i: usize = 0;
    while i < quads.len()
        invariant
            i <= quads.len(),
            out.len() == i,
            forall|j: int| 0 <= j < i ==> #[trigger] out[j].0@ == index_order(quads[j], components.components()),
        decreases quads.len() - i,
    {
        out.push(quads[i].for_index(components));
        i = i + 1;
    }
    out
}

/// Picks the index with the highest score; on a tie, the first of them.
pub fn choose_best_position(scores: &[usize]) -> (r: usize)
    requires
        scores.len() > 0,
    ensures
        r < scores.len(),
        forall|i: int| 0 <= i < scores.len() ==> scores[i] <= scores[r as int],
        forall|i: int| 0 <= i < r ==> scores[i] < scores[r as int],
{
    let mut best: usize = 0;
    let mut i: usize = 1;
    while i < scores.len()
        invariant
            1 <= i <= scores.len(),
            best < i,
            forall|j: int| 0 <= j < i ==> scores[j] <= scores[best as int],
            forall|j: int| 0 <= j < best ==> scores[j] < scores[best as int],
        decreases scores.len() - i,
    {
        if scores[i] > scores[best] {
            best = i;
        }
        i = i + 1;
    }
    best
}

/// Whether two index orders are the same.
pub fn same_components(a: &IndexComponents, b: &IndexComponents) -> (r: bool)
    ensures
        r == (a.components() == b.components()),
{
    let x = a.inner();
    let y = b.inner();
    let r = x[0] == y[0] && x[1] == y[1] && x[2] == y[2] && x[3] == y[3];
    proof {
        if r {
            assert(x@ =~= y@);
        }
    }
    r
}

/// A set of indexes over the same quads, each sorted by another order of the quad components,
/// so that each pattern can be scanned with an index that suits it (`<S> <P> ?o` with an SPO
/// index, `?s <P> <O>` with a POS one), together with the storage of the named graphs.
pub struct IndexPermutations<TIndex: QuadIndex> {
    /// The storage that keeps the named graphs.
    named_graphs: TIndex::NamedGraphStorage,
    /// The indexes.
    indexes: Vec<TIndex>,
    /// The order of each index, as it reported it when the set was made.
    orders: Vec<IndexComponents>,
}

/// The quads laid out in the order `c`.
pub open spec fn laid_out<TTerm: EncodedTerm>(quads: Seq<EncodedQuad<TTerm>>, c: IndexComponents) -> Set<Seq<TTerm>> {
    Set::new(|s: Seq<TTerm>| exists|k: int| 0 <= k < quads.len() && index_order(quads[k], c.components()) == s)
}

/// The named graphs (not the default graph) that the quads are in.
pub open spec fn named_graphs_of<TTerm: EncodedTerm>(quads: Seq<EncodedQuad<TTerm>>) -> Set<TTerm> {
    Set::new(
        |g: TTerm|
            exists|k: int|
                0 <= k < quads.len() && quads[k].graph_name == g && !g.denotes_default_graph(),
    )
}

/// The quads laid out by [`quads_for_index`] are the quads in that order.
proof fn lemma_laid_out<TTerm: EncodedTerm>(
    laid: Seq<IndexQuad<TTerm>>,
    quads: Seq<EncodedQuad<TTerm>>,
    c: IndexComponents,
)
    requires
        laid.len() == quads.len(),
        forall|i: int| 0 <= i < quads.len() ==> #[trigger] laid[i].0@ == index_order(quads[i], c.components()),
    ensures
        crate::quad_index::index_quad_set(laid) == laid_out(quads, c),
{
    assert forall|s: Seq<TTerm>| crate::quad_index::index_quad_set(laid).contains(s) implies laid_out(quads, c).contains(s) by {
        let k = choose|k: int| 0 <= k < laid.len() && laid[k].0@ == s;
        assert(index_order(quads[k], c.components()) == s);
    }
    assert forall|s: Seq<TTerm>| laid_out(quads, c).contains(s) implies crate::quad_index::index_quad_set(laid).contains(s) by {
        let k = choose|k: int| 0 <= k < quads.len() && index_order(quads[k], c.components()) == s;
        assert(laid[k].0@ == s);
    }
    assert(crate::quad_index::index_quad_set(laid) =~= laid_out(quads, c));
}

impl<TIndex: QuadIndex> IndexPermutations<TIndex> {
    /// The orders of the indexes, in the order of the indexes.
    pub closed spec fn index_orders(&self) -> Seq<IndexComponents> {
        self.orders@
    }

    /// The indexes.
    pub closed spec fn indexes(&self) -> Seq<TIndex> {
        self.indexes@
    }

    /// The named graphs that are recorded.
    pub closed spec fn named_graph_set(&self) -> Set<TIndex::Term> {
        self.named_graphs.graph_set()
    }

    /// Every index has its order recorded.
    pub closed spec fn wf(&self) -> bool {
        &&& self.orders@.len() == self.indexes@.len()
        &&& forall|i: int| 0 <= i < self.orders@.len() ==> self.orders@[i] == (#[trigger] self.indexes@[i]).order()
    }

    /// The order recorded for each index is the index's own order.
    pub proof fn lemma_orders_recorded(&self)
        requires
            self.wf(),
        ensures
            self.index_orders().len() == self.indexes().len(),
            forall|i: int| 0 <= i < self.indexes().len() ==> self.index_orders()[i] == (#[trigger] self.indexes()[i]).order(),
    {
    }

    /// Creates a set of indexes with the storage for their named graphs.
    pub fn new(named_graphs: TIndex::NamedGraphStorage, indexes: Vec<TIndex>) -> (r: Self)
        ensures
            r.wf(),
            r.indexes() == indexes@,
            r.index_orders().len() == indexes.len(),
            forall|i: int| 0 <= i < indexes.len() ==> r.index_orders()[i] == (#[trigger] indexes@[i]).order(),
            r.named_graph_set() == named_graphs.graph_set(),
    {
        let mut orders: Vec<IndexComponents> = Vec::new();
        let mut i: usize = 0;
        while i < indexes.len()
            invariant
                i <= indexes.len(),
                orders.len() == i,
                forall|j: int| 0 <= j < i ==> orders@[j] == (#[trigger] indexes@[j]).order(),
            decreases indexes.len() - i,
        {
            orders.push(indexes[i].components());
            i = i + 1;
        }
        IndexPermutations { named_graphs, indexes, orders }
    }

    /// Finds the index with the given order: the first one, if several have it.
    pub fn find_index(&self, configuration: IndexComponents) -> (r: Option<&TIndex>)
        requires
            self.wf(),
        ensures
            r is None <==> forall|i: int| 0 <= i < self.index_orders().len()
                ==> (#[trigger] self.index_orders()[i]).components() != configuration.components(),
            r matches Some(index) ==> exists|i: int|
                0 <= i < self.indexes().len() && self.index_orders()[i].components()
                    == configuration.components() && *index == self.indexes()[i] && forall|j: int|
                    0 <= j < i ==> (#[trigger] self.index_orders()[j]).components()
                        != configuration.components(),
    {
        let mut i: usize = 0;
        while i < self.orders.len()
            invariant
                self.wf(),
                i <= self.orders.len(),
                forall|j: int| 0 <= j < i ==> (#[trigger] self.index_orders()[j]).components()
                    != configuration.components(),
            decreases self.orders.len() - i,
        {
            if same_components(&self.orders[i], &configuration) {
                proof {
                    assert(self.index_orders()[i as int].components() == configuration.components());
                    assert(self.indexes()[i as int] == self.indexes@[i as int]);
                }
                return Some(&self.indexes[i]);
            }
            i = i + 1;
        }
        None
    }

    /// Chooses the index that best serves a scan: the one with the highest score for the scan
    /// laid out in its order, and the first of them on a tie.
    pub fn choose_index(&self, pattern: &TIndex::ScanInstructions) -> (r: IndexComponents)
        requires
            self.wf(),
            self.indexes().len() > 0,
        ensures
            exists|b: int| 0 <= b < self.index_orders().len() && r == self.index_orders()[b]
                && (forall|i: int| 0 <= i < self.indexes().len() ==> #[trigger] self.score_at(*pattern, i) <= self.score_at(*pattern, b))
                && (forall|i: int| 0 <= i < b ==> #[trigger] self.score_at(*pattern, i) < self.score_at(*pattern, b)),
    {
        let mut scores: Vec<usize> = Vec::new();
        let mut i: usize = 0;
        while i < self.indexes.len()
            invariant
                self.wf(),
                i <= self.indexes.len(),
                scores.len() == i,
                forall|j: int| 0 <= j < i ==> #[trigger] scores@[j] == self.score_at(*pattern, j),
            decreases self.indexes.len() - i,
        {
            let reordered = pattern.reorder(self.orders[i]);
            scores.push(self.indexes[i].compute_scan_score(&reordered));
            i = i + 1;
        }
        let best = choose_best_position(scores.as_slice());
        proof {
            assert(self.index_orders()[best as int] == self.orders@[best as int]);
            assert forall|i: int| 0 <= i < self.indexes().len() implies #[trigger] self.score_at(*pattern, i)
                <= self.score_at(*pattern, best as int) by {
                assert(scores@[i] == self.score_at(*pattern, i));
                assert(scores@[best as int] == self.score_at(*pattern, best as int));
            }
            assert forall|i: int| 0 <= i < best implies #[trigger] self.score_at(*pattern, i)
                < self.score_at(*pattern, best as int) by {
                assert(scores@[i] == self.score_at(*pattern, i));
                assert(scores@[best as int] == self.score_at(*pattern, best as int));
            }
        }
        self.orders[best]
    }

    /// The score of the index at position `i` for the scan laid out in that index's order.
    pub open spec fn score_at(&self, pattern: TIndex::ScanInstructions, i: int) -> usize {
        self.indexes()[i].score_of(pattern.reordered(self.index_orders()[i]))
    }

    /// The number of quads, as the first index counts them.
    pub fn len(&self) -> (r: usize)
        requires
            self.indexes().len() > 0,
        ensures
            r == self.indexes()[0].quads().len(),
    {
        self.any_index().len()
    }

    /// The first index.
    fn any_index(&self) -> (r: &TIndex)
        requires
            self.indexes().len() > 0,
        ensures
            *r == self.indexes()[0],
    {
        &self.indexes[0]
    }

    /// Inserts quads into every index, each laid out in that index's order, and records the
    /// named graphs they are in; the number of quads the last index then holds.
    pub fn insert(&mut self, quads: &[EncodedQuad<TIndex::Term>]) -> (r: usize)
        requires
            old(self).wf(),
        ensures
            final(self).wf(),
            final(self).index_orders() == old(self).index_orders(),
            final(self).indexes().len() == old(self).indexes().len(),
            forall|i: int|
                0 <= i < old(self).indexes().len() ==> (#[trigger] final(self).indexes()[i]).quads()
                    == old(self).indexes()[i].quads().union(
                    laid_out(quads@, old(self).index_orders()[i]),
                ),
            r == if old(self).indexes().len() == 0 {
                0
            } else {
                final(self).indexes().last().quads().len()
            },
            final(self).named_graph_set() == old(self).named_graph_set().union(
                named_graphs_of(quads@),
            ),
    {
        let mut count: usize = 0;
        let mut i: usize = 0;
        while i < self.indexes.len()
            invariant
                self.wf(),
                i <= self.indexes.len(),
                self.index_orders() == old(self).index_orders(),
                self.indexes().len() == old(self).indexes().len(),
                self.named_graph_set() == old(self).named_graph_set(),
                forall|j: int|
                    0 <= j < i ==> (#[trigger] self.indexes()[j]).quads() == old(self).indexes()[j].quads().union(
                        laid_out(quads@, old(self).index_orders()[j]),
                    ),
                forall|j: int|
                    i <= j < self.indexes().len() ==> #[trigger] self.indexes()[j] == old(self).indexes()[j],
                i == 0 ==> count == 0,
                i > 0 ==> count == self.indexes()[i - 1].quads().len(),
            decreases self.indexes.len() - i,
        {
            let laid = quads_for_index(quads, self.orders[i]);
            proof {
                lemma_laid_out(laid@, quads@, self.orders@[i as int]);
            }
            count = self.indexes[i].insert(laid);
            i = i + 1;
        }
        let mut j: usize = 0;
        while j < quads.len()
            invariant
                self.wf(),
                j <= quads.len(),
                self.index_orders() == old(self).index_orders(),
                self.indexes().len() == old(self).indexes().len(),
                forall|k: int|
                    0 <= k < self.indexes().len() ==> (#[trigger] self.indexes()[k]).quads() == old(self).indexes()[k].quads().union(
                        laid_out(quads@, old(self).index_orders()[k]),
                    ),
                count == if old(self).indexes().len() == 0 {
                    0
                } else {
                    self.indexes().last().quads().len()
                },
                self.named_graph_set() == old(self).named_graph_set().union(
                    named_graphs_of(quads@.take(j as int)),
                ),
            decreases quads.len() - j,
        {
            let graph_name = quads[j].graph_name;
            let ghost before = self.named_graph_set();
            if !graph_name.is_default_graph() {
                self.named_graphs.insert(graph_name);
            }
            proof {
                let prev = quads@.take(j as int);
                let next = quads@.take(j as int + 1);
                assert forall|g: TIndex::Term| named_graphs_of(next).contains(g) == (named_graphs_of(
                    prev,
                ).contains(g) || (g == graph_name && !g.denotes_default_graph())) by {
                    if named_graphs_of(next).contains(g) {
                        let k = choose|k: int|
                            0 <= k < next.len() && next[k].graph_name == g
                                && !g.denotes_default_graph();
                        if k < j {
                            assert(prev[k] == next[k]);
                        }
                    }
                    if named_graphs_of(prev).contains(g) {
                        let k = choose|k: int|
                            0 <= k < prev.len() && prev[k].graph_name == g
                                && !g.denotes_default_graph();
                        assert(next[k] == prev[k]);
                    }
                    if g == graph_name && !g.denotes_default_graph() {
                        assert(next[j as int] == quads@[j as int]);
                    }
                }
                assert(self.named_graph_set() =~= old(self).named_graph_set().union(
                    named_graphs_of(next),
                ));
            }
            j = j + 1;
        }
        proof {
            assert(quads@.take(quads@.len() as int) =~= quads@);
        }
        count
    }

    /// Removes quads from every index, each laid out in that index's order; the number of quads
    /// the last index then holds.
    pub fn remove(&mut self, quads: &[EncodedQuad<TIndex::Term>]) -> (r: usize)
        requires
            old(self).wf(),
        ensures
            final(self).wf(),
            final(self).index_orders() == old(self).index_orders(),
            final(self).indexes().len() == old(self).indexes().len(),
            forall|i: int|
                0 <= i < old(self).indexes().len() ==> (#[trigger] final(self).indexes()[i]).quads()
                    == old(self).indexes()[i].quads().difference(
                    laid_out(quads@, old(self).index_orders()[i]),
                ),
            r == if old(self).indexes().len() == 0 {
                0
            } else {
                final(self).indexes().last().quads().len()
            },
            final(self).named_graph_set() == old(self).named_graph_set(),
    {
        let mut count: usize = 0;
        let mut i: usize = 0;
        while i < self.indexes.len()
            invariant
                self.wf(),
                i <= self.indexes.len(),
                self.index_orders() == old(self).index_orders(),
                self.indexes().len() == old(self).indexes().len(),
                self.named_graph_set() == old(self).named_graph_set(),
                forall|j: int|
                    0 <= j < i ==> (#[trigger] self.indexes()[j]).quads() == old(self).indexes()[j].quads().difference(
                        laid_out(quads@, old(self).index_orders()[j]),
                    ),
                forall|j: int|
                    i <= j < self.indexes().len() ==> #[trigger] self.indexes()[j] == old(self).indexes()[j],
                i == 0 ==> count == 0,
                i > 0 ==> count == self.indexes()[i - 1].quads().len(),
            decreases self.indexes.len() - i,
        {
            let laid = quads_for_index(quads, self.orders[i]);
            proof {
                lemma_laid_out(laid@, quads@, self.orders@[i as int]);
            }
            count = self.indexes[i].remove(laid);
            i = i + 1;
        }
        count
    }

    /// Records a named graph; whether it was new.
    pub fn insert_named_graph(&mut self, graph_name: TIndex::Term) -> (r: bool)
        ensures
            final(self).index_orders() == old(self).index_orders(),
            final(self).indexes() == old(self).indexes(),
            final(self).wf() == old(self).wf(),
            final(self).named_graph_set() == old(self).named_graph_set().insert(graph_name),
            r == !old(self).named_graph_set().contains(graph_name),
    {
        self.named_graphs.insert(graph_name)
    }

    /// The named graphs that are recorded, each once.
    pub fn named_graphs(&self) -> (r: Vec<TIndex::Term>)
        ensures
            r@.to_set() == self.named_graph_set(),
            r@.no_duplicates(),
    {
        self.named_graphs.graph_names()
    }

    /// Whether the named graph is recorded.
    pub fn contains_named_graph(&self, graph_name: TIndex::Term) -> (r: bool)
        ensures
            r == self.named_graph_set().contains(graph_name),
    {
        self.named_graphs.contains(&graph_name)
    }

    /// Removes every quad from every index; the named graphs stay recorded.
    pub fn clear(&mut self)
        requires
            old(self).wf(),
        ensures
            final(self).wf(),
            final(self).index_orders() == old(self).index_orders(),
            final(self).indexes().len() == old(self).indexes().len(),
            forall|i: int|
                0 <= i < old(self).indexes().len() ==> (#[trigger] final(self).indexes()[i]).quads()
                    == Set::<Seq<TIndex::Term>>::empty(),
            final(self).named_graph_set() == old(self).named_graph_set(),
    {
        let mut i: usize = 0;
        while i < self.indexes.len()
            invariant
                self.wf(),
                i <= self.indexes.len(),
                self.index_orders() == old(self).index_orders(),
                self.indexes().len() == old(self).indexes().len(),
                self.named_graph_set() == old(self).named_graph_set(),
                forall|j: int|
                    0 <= j < i ==> (#[trigger] self.indexes()[j]).quads() == Set::<Seq<TIndex::Term>>::empty(),
            decreases self.indexes.len() - i,
        {
            self.indexes[i].clear();
            i = i + 1;
        }
    }

    /// Removes the quads of one graph from every index; the named graphs stay recorded.
    pub fn clear_graph(&mut self, graph_name: &TIndex::Term)
        requires
            old(self).wf(),
        ensures
            final(self).wf(),
            final(self).index_orders() == old(self).index_orders(),
            final(self).indexes().len() == old(self).indexes().len(),
            forall|i: int|
                0 <= i < old(self).indexes().len() ==> (#[trigger] final(self).indexes()[i]).quads()
                    == crate::quad_index::without_graph(
                    old(self).indexes()[i].quads(),
                    old(self).index_orders()[i],
                    *graph_name,
                ),
            final(self).named_graph_set() == old(self).named_graph_set(),
    {
        let mut i: usize = 0;
        while i < self.indexes.len()
            invariant
                self.wf(),
                i <= self.indexes.len(),
                self.index_orders() == old(self).index_orders(),
                self.indexes().len() == old(self).indexes().len(),
                self.named_graph_set() == old(self).named_graph_set(),
                forall|j: int|
                    0 <= j < i ==> (#[trigger] self.indexes()[j]).quads() == crate::quad_index::without_graph(
                        old(self).indexes()[j].quads(),
                        old(self).index_orders()[j],
                        *graph_name,
                    ),
                forall|j: int|
                    i <= j < self.indexes().len() ==> #[trigger] self.indexes()[j] == old(self).indexes()[j],
            decreases self.indexes.len() - i,
        {
            self.indexes[i].clear_graph(*graph_name);
            i = i + 1;
        }
    }

    /// Removes the quads of a named graph from every index and forgets the graph; whether it
    /// was recorded.
    pub fn drop_named_graph(&mut self, graph_name: &TIndex::Term) -> (r: bool)
        requires
            old(self).wf(),
        ensures
            final(self).wf(),
            final(self).index_orders() == old(self).index_orders(),
            final(self).indexes().len() == old(self).indexes().len(),
            forall|i: int|
                0 <= i < old(self).indexes().len() ==> (#[trigger] final(self).indexes()[i]).quads()
                    == crate::quad_index::without_graph(
                    old(self).indexes()[i].quads(),
                    old(self).index_orders()[i],
                    *graph_name,
                ),
            final(self).named_graph_set() == old(self).named_graph_set().remove(*graph_name),
            r == old(self).named_graph_set().contains(*graph_name),
    {
        self.clear_graph(graph_name);
        self.named_graphs.remove(graph_name)
    }
}

} // verus!

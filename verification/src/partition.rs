//! Splitting a net changeset into its categories, and choosing how a changeset is computed.

use crate::changeset::{all_operations_valid, compute_net_changeset, is_net_changeset, read_part, LogRow};
use crate::log::operation_of_code;
use vstd::prelude::*;

verus! {

/// What the partitioning reads of a changeset row: its operation code and which of its cells
/// are set.
#[derive(Clone, Copy, Debug, PartialEq, Eq, Structural)]
pub struct RowValidity {
    pub operation: i8,
    /// The graph cell is set (a named graph).
    pub graph_valid: bool,
    /// The subject, predicate and object cells are all set.
    pub quad_valid: bool,
}

/// Why a changeset row cannot be partitioned.
#[derive(Clone, Copy, Debug, PartialEq, Eq, Structural)]
pub enum PartitionError {
    /// The row holds a code that denotes no operation.
    InvalidOperation(i8),
    /// A quad removal or insertion misses its subject, predicate or object.
    MissingQuadTerms,
}

impl PartitionError {
    /// The error's message.
    pub fn to_string(&self) -> (r: String)
        ensures
            r@ == partition_error_message(*self),
    {
        match self {
            PartitionError::InvalidOperation(code) => {
                let mut s = String::new();
                s.append("Invalid operation: ");
                let d = crate::decimal::format_i64(*code as i64);
                s.append(d.as_str());
                s
            },
            PartitionError::MissingQuadTerms => {
                let mut s = String::new();
                s.append("Invalid remove quad operation: missing subject, predicate, or object",
                );
                s
            },
        }
    }
}

/// The message of a partition error.
pub open spec fn partition_error_message(e: PartitionError) -> Seq<char> {
    match e {
        PartitionError::InvalidOperation(code) => "Invalid operation: "@ + crate::decimal::decimal_chars(code as int),
        PartitionError::MissingQuadTerms => "Invalid remove quad operation: missing subject, predicate, or object"@,
    }
}

/// The row indices of each category of a changeset, each in increasing order.
pub struct PartitionedRows {
    /// Clears of the whole database.
    pub cleared_database: Vec<usize>,
    pub cleared_graphs: Vec<usize>,
    pub dropped_named_graphs: Vec<usize>,
    pub added_named_graphs: Vec<usize>,
    pub removed_quads: Vec<usize>,
    pub added_quads: Vec<usize>,
}

/// The error that a row raises, if any.
pub open spec fn row_error(r: RowValidity) -> Option<PartitionError> {
    if operation_of_code(r.operation) is None {
        Some(PartitionError::InvalidOperation(r.operation))
    } else if (r.operation == 20 || r.operation == 21) && !r.quad_valid {
        Some(PartitionError::MissingQuadTerms)
    } else {
        None
    }
}

/// A clear of the whole database.
pub open spec fn in_cleared_database(r: RowValidity) -> bool {
    r.operation == 0
}

/// A drop or a clear marks its graph as cleared.
pub open spec fn in_cleared_graphs(r: RowValidity) -> bool {
    r.operation == 10 || r.operation == 11
}

/// A drop of a named graph marks it as dropped.
pub open spec fn in_dropped_named_graphs(r: RowValidity) -> bool {
    r.operation == 10 && r.graph_valid
}

/// A clear or a creation of a named graph, and an insertion into one, mark it as added.
pub open spec fn in_added_named_graphs(r: RowValidity) -> bool {
    (r.operation == 11 || r.operation == 12 || r.operation == 21) && r.graph_valid
}

/// A quad removal.
pub open spec fn in_removed_quads(r: RowValidity) -> bool {
    r.operation == 20
}

/// A quad insertion.
pub open spec fn in_added_quads(r: RowValidity) -> bool {
    r.operation == 21
}

/// The categories of a changeset.
#[derive(Clone, Copy, Debug, PartialEq, Eq, Structural)]
pub enum Category {
    ClearedDatabase,
    ClearedGraphs,
    DroppedNamedGraphs,
    AddedNamedGraphs,
    RemovedQuads,
    AddedQuads,
}

/// Whether a row falls into a category.
pub open spec fn in_category(c: Category, r: RowValidity) -> bool {
    match c {
        Category::ClearedDatabase => in_cleared_database(r),
        Category::ClearedGraphs => in_cleared_graphs(r),
        Category::DroppedNamedGraphs => in_dropped_named_graphs(r),
        Category::AddedNamedGraphs => in_added_named_graphs(r),
        Category::RemovedQuads => in_removed_quads(r),
        Category::AddedQuads => in_added_quads(r),
    }
}

/// `idx` lists, in increasing order, exactly the rows that fall into category `c`.
pub open spec fn lists_rows(rows: Seq<RowValidity>, idx: Seq<usize>, c: Category) -> bool {
    &&& forall|a: int, b: int| 0 <= a < b < idx.len() ==> idx[a] < idx[b]
    &&& forall|a: int| 0 <= a < idx.len() ==> idx[a] < rows.len() && in_category(c, rows[idx[a] as int])
    &&& forall|i: int| 0 <= i < rows.len() && in_category(c, #[trigger] rows[i]) ==> idx.contains(i as usize)
}

/// The first row that raises an error raises `e`.
pub open spec fn first_error_is(rows: Seq<RowValidity>, e: PartitionError) -> bool {
    exists|i: int|
        0 <= i < rows.len() && #[trigger] row_error(rows[i]) == Some(e) && forall|j: int|
            0 <= j < i ==> row_error(#[trigger] rows[j]) is None
}

/// Pushes `i` onto `v` when `sel` holds.
fn push_if(v: &mut Vec<usize>, sel: bool, i: usize)
    ensures
        final(v)@ == if sel {
            old(v)@.push(i)
        } else {
            old(v)@
        },
{
    if sel {
        v.push(i);
    }
}

/// Partitions the rows of a net changeset into cleared graphs, dropped named graphs, added
/// named graphs, removed quads and added quads (a row may fall into several). Fails on the
/// first row with an invalid operation or with a quad operation that misses a term.
pub fn partition_changeset_operations(rows: &[RowValidity]) -> (r: Result<PartitionedRows, PartitionError>)
    ensures
        r is Ok <==> forall|i: int| 0 <= i < rows@.len() ==> row_error(#[trigger] rows@[i]) is None,
        r matches Err(e) ==> first_error_is(rows@, e),
        r matches Ok(p) ==> {
            &&& lists_rows(rows@, p.cleared_database@, Category::ClearedDatabase)
            &&& lists_rows(rows@, p.cleared_graphs@, Category::ClearedGraphs)
            &&& lists_rows(rows@, p.dropped_named_graphs@, Category::DroppedNamedGraphs)
            &&& lists_rows(rows@, p.added_named_graphs@, Category::AddedNamedGraphs)
            &&& lists_rows(rows@, p.removed_quads@, Category::RemovedQuads)
            &&& lists_rows(rows@, p.added_quads@, Category::AddedQuads)
        },
{
    let n = rows.len();
    let mut cleared_db: Vec<usize> = Vec::new();
    let mut cleared: Vec<usize> = Vec::new();
    let mut dropped: Vec<usize> = Vec::new();
    let mut added_graphs: Vec<usize> = Vec::new();
    let mut removed: Vec<usize> = Vec::new();
    let mut added: Vec<usize> = Vec::new();
    let ghost s = rows@;
    let mut i: usize = 0;
    while i < n
        invariant
            n == s.len(),
            s == rows@,
            i <= n,
            forall|j: int| 0 <= j < i ==> row_error(#[trigger] s[j]) is None,
            lists_rows(s.subrange(0, i as int), cleared_db@, Category::ClearedDatabase),
            lists_rows(s.subrange(0, i as int), cleared@, Category::ClearedGraphs),
            lists_rows(s.subrange(0, i as int), dropped@, Category::DroppedNamedGraphs),
            lists_rows(s.subrange(0, i as int), added_graphs@, Category::AddedNamedGraphs),
            lists_rows(s.subrange(0, i as int), removed@, Category::RemovedQuads),
            lists_rows(s.subrange(0, i as int), added@, Category::AddedQuads),
        decreases n - i,
    {
        let row = rows[i];
        let op = row.operation;
        let valid_op = op == 0 || op == 10 || op == 11 || op == 12 || op == 20 || op == 21;
        if !valid_op {
            proof {
                assert(row_error(s[i as int]) == Some(PartitionError::InvalidOperation(op)));
            }
            return Err(PartitionError::InvalidOperation(op));
        }
        if (op == 20 || op == 21) && !row.quad_valid {
            proof {
                assert(row_error(s[i as int]) == Some(PartitionError::MissingQuadTerms));
            }
            return Err(PartitionError::MissingQuadTerms);
        }
        let ghost before = s.subrange(0, i as int);
        let ghost after = s.subrange(0, i + 1);
        proof {
            assert(after =~= before.push(row));
        }
        let ghost z0 = cleared_db@;
        let ghost c0 = cleared@;
        let ghost d0 = dropped@;
        let ghost g0 = added_graphs@;
        let ghost r0 = removed@;
        let ghost a0 = added@;
        push_if(&mut cleared_db, op == 0, i);
        push_if(&mut cleared, op == 10 || op == 11, i);
        push_if(&mut dropped, op == 10 && row.graph_valid, i);
        push_if(&mut added_graphs, (op == 11 || op == 12 || op == 21) && row.graph_valid, i);
        push_if(&mut removed, op == 20, i);
        push_if(&mut added, op == 21, i);
        proof {
            lemma_lists_rows_push(before, row, z0, Category::ClearedDatabase);
            lemma_lists_rows_push(before, row, c0, Category::ClearedGraphs);
            lemma_lists_rows_push(before, row, d0, Category::DroppedNamedGraphs);
            lemma_lists_rows_push(before, row, g0, Category::AddedNamedGraphs);
            lemma_lists_rows_push(before, row, r0, Category::RemovedQuads);
            lemma_lists_rows_push(before, row, a0, Category::AddedQuads);
        }
        i = i + 1;
    }
    proof {
        assert(s.subrange(0, n as int) =~= s);
    }
    Ok(
        PartitionedRows {
            cleared_database: cleared_db,
            cleared_graphs: cleared,
            dropped_named_graphs: dropped,
            added_named_graphs: added_graphs,
            removed_quads: removed,
            added_quads: added,
        },
    )
}

/// Extending the rows by one row keeps an index list exact when the new row's index is
/// appended exactly if the predicate selects the row.
proof fn lemma_lists_rows_push(
    rows: Seq<RowValidity>,
    row: RowValidity,
    idx: Seq<usize>,
    c: Category,
)
    requires
        lists_rows(rows, idx, c),
        rows.len() < usize::MAX,
    ensures
        lists_rows(
            rows.push(row),
            if in_category(c, row) {
                idx.push(rows.len() as usize)
            } else {
                idx
            },
            c,
        ),
{
    let rows2 = rows.push(row);
    let idx2 = if in_category(c, row) {
        idx.push(rows.len() as usize)
    } else {
        idx
    };
    assert forall|i: int| 0 <= i < rows2.len() && in_category(c, #[trigger] rows2[i]) implies idx2.contains(
        i as usize,
    ) by {
        if i < rows.len() {
            assert(rows2[i] == rows[i]);
            assert(idx.contains(i as usize));
            let a = choose|a: int| 0 <= a < idx.len() && idx[a] == i as usize;
            assert(idx2[a] == i as usize);
        } else {
            assert(idx2[idx2.len() - 1] == i as usize);
        }
    }
}


/// The operation rows that a category of a changeset stands for, in the order of its
/// indices: a graph category keeps only the graph of its rows, a quad category the quad.
pub open spec fn category_operations(
    rows: Seq<LogRow>,
    idx: Seq<usize>,
    operation: i8,
    whole_quad: bool,
) -> Seq<LogRow> {
    idx.map_values(
        |i: usize|
            LogRow {
                operation,
                graph: rows[i as int].graph,
                subject: if whole_quad {
                    rows[i as int].subject
                } else {
                    None
                },
                predicate: if whole_quad {
                    rows[i as int].predicate
                } else {
                    None
                },
                object: if whole_quad {
                    rows[i as int].object
                } else {
                    None
                },
            },
    )
}

/// Every index points into `n` rows.
pub open spec fn indices_within(idx: Seq<usize>, n: nat) -> bool {
    forall|a: int| 0 <= a < idx.len() ==> idx[a] < n
}

/// The operations a partitioned changeset stands for: the clear of the whole database, clears of the cleared graphs, drops of
/// the dropped named graphs, creations of the added named graphs, then the quad removals and
/// the quad insertions.
pub open spec fn changeset_operations(rows: Seq<LogRow>, parts: PartitionedRows) -> Seq<LogRow> {
    category_operations(rows, parts.cleared_database@, 0, false) + category_operations(
        rows,
        parts.cleared_graphs@,
        11,
        false,
    ) + category_operations(
        rows,
        parts.dropped_named_graphs@,
        10,
        false,
    ) + category_operations(rows, parts.added_named_graphs@, 12, false) + category_operations(
        rows,
        parts.removed_quads@,
        20,
        true,
    ) + category_operations(rows, parts.added_quads@, 21, true)
}

/// Appends the operation rows of one category.
fn append_category_to_ops(
    ops: &mut Vec<LogRow>,
    rows: &[LogRow],
    idx: &[usize],
    operation: i8,
    whole_quad: bool,
)
    requires
        indices_within(idx@, rows@.len()),
    ensures
        final(ops)@ == old(ops)@ + category_operations(rows@, idx@, operation, whole_quad),
{
    let ghost start = ops@;
    let mut a: usize = 0;
    while a < idx.len()
        invariant
            a <= idx@.len(),
            indices_within(idx@, rows@.len()),
            ops@ == start + category_operations(rows@, idx@.take(a as int), operation, whole_quad),
        decreases idx@.len() - a,
    {
        let row = rows[idx[a]];
        let op_row = if whole_quad {
            LogRow {
                operation,
                graph: row.graph,
                subject: row.subject,
                predicate: row.predicate,
                object: row.object,
            }
        } else {
            LogRow { operation, graph: row.graph, subject: None, predicate: None, object: None }
        };
        ops.push(op_row);
        proof {
            assert(idx@.take(a as int + 1) =~= idx@.take(a as int).push(idx@[a as int]));
            assert(category_operations(rows@, idx@.take(a as int + 1), operation, whole_quad)
                =~= category_operations(rows@, idx@.take(a as int), operation, whole_quad).push(
                op_row,
            ));
        }
        a = a + 1;
    }
    proof {
        assert(idx@.take(idx@.len() as int) =~= idx@);
    }
}

/// Reconstructs the operations of a partitioned changeset (`rows` are the changeset's rows
/// that `parts` indexes).
pub fn to_operations(rows: &[LogRow], parts: &PartitionedRows) -> (r: Vec<LogRow>)
    requires
        indices_within(parts.cleared_database@, rows@.len()),
        indices_within(parts.cleared_graphs@, rows@.len()),
        indices_within(parts.dropped_named_graphs@, rows@.len()),
        indices_within(parts.added_named_graphs@, rows@.len()),
        indices_within(parts.removed_quads@, rows@.len()),
        indices_within(parts.added_quads@, rows@.len()),
    ensures
        r@ == changeset_operations(rows@, *parts),
{
    let mut ops: Vec<LogRow> = Vec::new();
    append_category_to_ops(&mut ops, rows, parts.cleared_database.as_slice(), 0, false);
    append_category_to_ops(&mut ops, rows, parts.cleared_graphs.as_slice(), 11, false);
    append_category_to_ops(&mut ops, rows, parts.dropped_named_graphs.as_slice(), 10, false);
    append_category_to_ops(&mut ops, rows, parts.added_named_graphs.as_slice(), 12, false);
    append_category_to_ops(&mut ops, rows, parts.removed_quads.as_slice(), 20, true);
    append_category_to_ops(&mut ops, rows, parts.added_quads.as_slice(), 21, true);
    proof {
        assert(ops@ =~= changeset_operations(rows@, *parts));
    }
    ops
}

/// What the partitioning reads of a row of a net changeset.
pub open spec fn validity_of(r: LogRow) -> RowValidity {
    RowValidity {
        operation: r.operation,
        graph_valid: r.graph is Some,
        quad_valid: r.subject is Some && r.predicate is Some && r.object is Some,
    }
}

/// What the partitioning reads of the rows.
pub open spec fn validities(rows: Seq<LogRow>) -> Seq<RowValidity> {
    rows.map_values(|r: LogRow| validity_of(r))
}

/// The categories of the rows are exactly listed.
pub open spec fn partitions(rows: Seq<RowValidity>, p: PartitionedRows) -> bool {
    &&& lists_rows(rows, p.cleared_database@, Category::ClearedDatabase)
    &&& lists_rows(rows, p.cleared_graphs@, Category::ClearedGraphs)
    &&& lists_rows(rows, p.dropped_named_graphs@, Category::DroppedNamedGraphs)
    &&& lists_rows(rows, p.added_named_graphs@, Category::AddedNamedGraphs)
    &&& lists_rows(rows, p.removed_quads@, Category::RemovedQuads)
    &&& lists_rows(rows, p.added_quads@, Category::AddedQuads)
}

/// The graphs of the listed rows.
pub open spec fn graphs_of(rows: Seq<LogRow>, idx: Seq<usize>) -> Seq<Option<u64>> {
    idx.map_values(|i: usize| rows[i as int].graph)
}

/// Of the listed rows, the first for each graph, in order.
pub open spec fn first_per_graph(rows: Seq<LogRow>, idx: Seq<usize>) -> Seq<usize>
    decreases idx.len(),
{
    if idx.len() == 0 {
        seq![]
    } else {
        let kept = first_per_graph(rows, idx.drop_last());
        if graphs_of(rows, kept).contains(rows[idx.last() as int].graph) {
            kept
        } else {
            kept.push(idx.last())
        }
    }
}

/// The rows kept per graph have distinct graphs, every listed row's graph is among them, and
/// each kept row is a listed one.
pub proof fn lemma_first_per_graph(rows: Seq<LogRow>, idx: Seq<usize>)
    ensures
        graphs_of(rows, first_per_graph(rows, idx)).no_duplicates(),
        forall|b: int|
            0 <= b < idx.len() ==> graphs_of(rows, first_per_graph(rows, idx)).contains(
                rows[idx[b] as int].graph,
            ),
        forall|x: int|
            0 <= x < first_per_graph(rows, idx).len() ==> idx.contains(
                first_per_graph(rows, idx)[x],
            ),
    decreases idx.len(),
{
    if idx.len() > 0 {
        let prev = idx.drop_last();
        lemma_first_per_graph(rows, prev);
        let kept = first_per_graph(rows, prev);
        let k2 = first_per_graph(rows, idx);
        let g = rows[idx.last() as int].graph;
        if !graphs_of(rows, kept).contains(g) {
            assert(graphs_of(rows, k2) =~= graphs_of(rows, kept).push(g));
        }
        assert forall|b: int| 0 <= b < idx.len() implies graphs_of(rows, k2).contains(
            rows[idx[b] as int].graph,
        ) by {
            if b < idx.len() - 1 {
                assert(prev[b] == idx[b]);
                let y = choose|y: int|
                    0 <= y < graphs_of(rows, kept).len() && graphs_of(rows, kept)[y]
                        == rows[prev[b] as int].graph;
                assert(graphs_of(rows, k2)[y] == graphs_of(rows, kept)[y]);
            } else if graphs_of(rows, kept).contains(g) {
                let y = choose|y: int| 0 <= y < graphs_of(rows, kept).len() && graphs_of(rows, kept)[y] == g;
                assert(graphs_of(rows, k2)[y] == graphs_of(rows, kept)[y]);
            } else {
                assert(graphs_of(rows, k2)[kept.len() as int] == g);
            }
        }
        assert forall|x: int| 0 <= x < k2.len() implies idx.contains(k2[x]) by {
            if x < kept.len() {
                assert(prev.contains(kept[x]));
                let j = choose|j: int| 0 <= j < prev.len() && prev[j] == kept[x];
                assert(idx[j] == kept[x]);
            } else {
                assert(idx[idx.len() - 1] == k2[x]);
            }
        }
    }
}

/// The categories of net changeset rows: each exactly listed, except that of the rows adding
/// a named graph only the first for each graph is listed.
pub open spec fn partitions_rows(rows: Seq<LogRow>, p: PartitionedRows) -> bool {
    let v = validities(rows);
    &&& lists_rows(v, p.cleared_database@, Category::ClearedDatabase)
    &&& lists_rows(v, p.cleared_graphs@, Category::ClearedGraphs)
    &&& lists_rows(v, p.dropped_named_graphs@, Category::DroppedNamedGraphs)
    &&& exists|all: Seq<usize>|
        lists_rows(v, all, Category::AddedNamedGraphs) && p.added_named_graphs@ == first_per_graph(
            rows,
            all,
        )
    &&& lists_rows(v, p.removed_quads@, Category::RemovedQuads)
    &&& lists_rows(v, p.added_quads@, Category::AddedQuads)
}

/// Keeps, of the listed rows, the first for each graph.
fn distinct_graph_rows(rows: &[LogRow], idx: &Vec<usize>) -> (r: Vec<usize>)
    requires
        forall|b: int| 0 <= b < idx@.len() ==> idx@[b] < rows@.len(),
    ensures
        r@ == first_per_graph(rows@, idx@),
{
    let mut out: Vec<usize> = Vec::new();
    let mut a: usize = 0;
    while a < idx.len()
        invariant
            a <= idx@.len(),
            forall|b: int| 0 <= b < idx@.len() ==> idx@[b] < rows@.len(),
            out@ == first_per_graph(rows@, idx@.take(a as int)),
        decreases idx@.len() - a,
    {
        let i = idx[a];
        let g = rows[i].graph;
        proof {
            lemma_first_per_graph(rows@, idx@.take(a as int));
            assert forall|y: int| 0 <= y < out@.len() implies out@[y] < rows@.len() by {
                assert(idx@.take(a as int).contains(out@[y]));
                let j = choose|j: int| 0 <= j < idx@.take(a as int).len() && idx@.take(a as int)[j] == out@[y];
                assert(idx@[j] == out@[y]);
            }
        }
        let mut seen = false;
        let mut x: usize = 0;
        while x < out.len()
            invariant
                x <= out@.len(),
                out@ == first_per_graph(rows@, idx@.take(a as int)),
                forall|b: int| 0 <= b < idx@.len() ==> idx@[b] < rows@.len(),
                forall|y: int| 0 <= y < out@.len() ==> out@[y] < rows@.len(),
                seen <==> graphs_of(rows@, out@).take(x as int).contains(g),
            decreases out@.len() - x,
        {
            proof {
                assert(graphs_of(rows@, out@).take(x as int + 1) =~= graphs_of(rows@, out@).take(
                    x as int,
                ).push(rows@[out@[x as int] as int].graph));
            }
            if rows[out[x]].graph == g {
                seen = true;
            }
            proof {
                let gs = graphs_of(rows@, out@);
                if seen {
                    if !gs.take(x as int).contains(g) {
                        assert(gs.take(x as int + 1)[x as int] == g);
                    } else {
                        let j = choose|j: int| 0 <= j < x && #[trigger] gs.take(x as int)[j] == g;
                        assert(gs.take(x as int + 1)[j] == g);
                    }
                } else {
                    assert(!gs.take(x as int + 1).contains(g)) by {
                        if gs.take(x as int + 1).contains(g) {
                            let j = choose|j: int| 0 <= j < x + 1 && #[trigger] gs.take(x as int + 1)[j] == g;
                            if j < x {
                                assert(gs.take(x as int)[j] == g);
                            }
                        }
                    }
                }
            }
            x = x + 1;
        }
        proof {
            assert(graphs_of(rows@, out@).take(out@.len() as int) =~= graphs_of(rows@, out@));
            let next = idx@.take(a as int + 1);
            assert(next.drop_last() =~= idx@.take(a as int));
            assert(next.last() == i);
        }
        if !seen {
            out.push(i);
        }
        a = a + 1;
    }
    proof {
        assert(idx@.take(idx@.len() as int) =~= idx@);
    }
    out
}

/// Partitions the rows of a net changeset (see [`partition_changeset_operations`]); of the
/// rows that add a named graph, the first for each graph is kept.
pub fn partition_rows(rows: &[LogRow]) -> (r: Result<PartitionedRows, PartitionError>)
    ensures
        r is Ok <==> forall|i: int|
            0 <= i < rows@.len() ==> row_error(#[trigger] validities(rows@)[i]) is None,
        r matches Err(e) ==> first_error_is(validities(rows@), e),
        r matches Ok(p) ==> partitions_rows(rows@, p),
{
    let mut v: Vec<RowValidity> = Vec::new();
    let mut i: usize = 0;
    while i < rows.len()
        invariant
            i <= rows@.len(),
            v@ == validities(rows@.take(i as int)),
        decreases rows@.len() - i,
    {
        let row = rows[i];
        v.push(
            RowValidity {
                operation: row.operation,
                graph_valid: row.graph.is_some(),
                quad_valid: row.subject.is_some() && row.predicate.is_some() && row.object.is_some(),
            },
        );
        proof {
            assert(rows@.take(i as int + 1) =~= rows@.take(i as int).push(row));
            assert(v@ =~= validities(rows@.take(i as int + 1)));
        }
        i = i + 1;
    }
    proof {
        assert(rows@.take(rows@.len() as int) =~= rows@);
    }
    match partition_changeset_operations(v.as_slice()) {
        Err(e) => Err(e),
        Ok(p) => {
            proof {
                assert forall|b: int| 0 <= b < p.added_named_graphs@.len() implies p.added_named_graphs@[b]
                    < rows@.len() by {
                    assert(v@.len() == rows@.len());
                }
            }
            let added = distinct_graph_rows(rows, &p.added_named_graphs);
            Ok(
                PartitionedRows {
                    cleared_database: p.cleared_database,
                    cleared_graphs: p.cleared_graphs,
                    dropped_named_graphs: p.dropped_named_graphs,
                    added_named_graphs: added,
                    removed_quads: p.removed_quads,
                    added_quads: p.added_quads,
                },
            )
        },
    }
}

/// A partition lists rows of the changeset only.
pub proof fn lemma_partition_indices_within(rows: Seq<RowValidity>, p: PartitionedRows)
    requires
        partitions(rows, p),
    ensures
        indices_within(p.cleared_database@, rows.len()),
        indices_within(p.cleared_graphs@, rows.len()),
        indices_within(p.dropped_named_graphs@, rows.len()),
        indices_within(p.added_named_graphs@, rows.len()),
        indices_within(p.removed_quads@, rows.len()),
        indices_within(p.added_quads@, rows.len()),
{
}

/// Extends a partitioned changeset with newer operations (oldest first): the changeset's own
/// operations come first, then the new ones, and the net changeset of them all is partitioned
/// anew.
pub fn extend_changeset(rows: &[LogRow], parts: &PartitionedRows, new_ops: &[LogRow]) -> (r: Result<
    (Vec<LogRow>, PartitionedRows),
    PartitionError,
>)
    requires
        indices_within(parts.cleared_database@, rows@.len()),
        indices_within(parts.cleared_graphs@, rows@.len()),
        indices_within(parts.dropped_named_graphs@, rows@.len()),
        indices_within(parts.added_named_graphs@, rows@.len()),
        indices_within(parts.removed_quads@, rows@.len()),
        indices_within(parts.added_quads@, rows@.len()),
        all_operations_valid(new_ops@),
    ensures
        ({
            let ops = changeset_operations(rows@, *parts) + new_ops@;
            match r {
                Ok((net, p)) => is_net_changeset(read_part(ops.reverse()), net@) && partitions_rows(net@, p),
                Err(e) => exists|net: Seq<LogRow>|
                    is_net_changeset(read_part(ops.reverse()), net) && first_error_is(validities(net), e),
            }
        }),
{
    let mut ops = to_operations(rows, parts);
    let ghost own = ops@;
    let mut k: usize = 0;
    while k < new_ops.len()
        invariant
            k <= new_ops@.len(),
            ops@ == own + new_ops@.take(k as int),
        decreases new_ops@.len() - k,
    {
        ops.push(new_ops[k]);
        proof {
            assert(new_ops@.take(k as int + 1) =~= new_ops@.take(k as int).push(new_ops@[k as int]));
        }
        k = k + 1;
    }
    proof {
        assert(new_ops@.take(new_ops@.len() as int) =~= new_ops@);
    }
    let ghost all = ops@;
    let mut newest_first: Vec<LogRow> = Vec::new();
    let mut j: usize = ops.len();
    while j > 0
        invariant
            j <= all.len(),
            ops@ == all,
            newest_first@.len() == all.len() - j,
            forall|x: int| 0 <= x < newest_first@.len() ==> newest_first@[x] == all[all.len() - 1 - x],
        decreases j,
    {
        j = j - 1;
        newest_first.push(ops[j]);
    }
    proof {
        assert(newest_first@ =~= all.reverse());
        assert forall|i: int| 0 <= i < all.len() implies (#[trigger] crate::log::operation_of_code(
            all[i].operation,
        )) is Some by {
            if i >= own.len() {
                assert(all[i] == new_ops@[i - own.len()]);
            } else {
                lemma_operations_valid(rows@, *parts, i);
            }
        }
        assert forall|i: int| 0 <= i < newest_first@.len() implies (#[trigger] crate::log::operation_of_code(
            newest_first@[i].operation,
        )) is Some by {
            assert(newest_first@[i] == all[all.len() - 1 - i]);
        }
    }
    let net = compute_net_changeset(newest_first.as_slice());
    match partition_rows(net.as_slice()) {
        Ok(p) => Ok((net, p)),
        Err(e) => Err(e),
    }
}

/// The operations a partitioned changeset stands for have valid codes.
proof fn lemma_operations_valid(rows: Seq<LogRow>, parts: PartitionedRows, i: int)
    requires
        0 <= i < changeset_operations(rows, parts).len(),
    ensures
        crate::log::operation_of_code(changeset_operations(rows, parts)[i].operation) is Some,
{
    let ops = changeset_operations(rows, parts);
    let op = ops[i].operation;
    assert(op == 0 || op == 10 || op == 11 || op == 12 || op == 20 || op == 21) by {
        let z = category_operations(rows, parts.cleared_database@, 0, false);
        let a = category_operations(rows, parts.cleared_graphs@, 11, false);
        let b = category_operations(rows, parts.dropped_named_graphs@, 10, false);
        let c = category_operations(rows, parts.added_named_graphs@, 12, false);
        let d = category_operations(rows, parts.removed_quads@, 20, true);
        let e = category_operations(rows, parts.added_quads@, 21, true);
        assert(ops == z + a + b + c + d + e);
        let ops = a + b + c + d + e;
        let i = i - z.len();
        if i < 0 {
        } else if i < a.len() {
            assert(ops[i] == a[i]);
        } else if i < a.len() + b.len() {
            assert(ops[i] == b[i - a.len()]);
        } else if i < a.len() + b.len() + c.len() {
            assert(ops[i] == c[i - a.len() - b.len()]);
        } else if i < a.len() + b.len() + c.len() + d.len() {
            assert(ops[i] == d[i - a.len() - b.len() - c.len()]);
        } else {
            assert(ops[i] == e[i - a.len() - b.len() - c.len() - d.len()]);
        }
    }
}

/// The statistics of a log file that decide whether it only inserts quads.
#[derive(Clone, Copy, Debug, PartialEq, Eq, Structural)]
pub struct FileOperationStats {
    /// The number of rows in the file.
    pub num_records: i64,
    /// The smallest operation code in the file, if recorded.
    pub min_operation: Option<u64>,
    /// The largest operation code in the file, if recorded.
    pub max_operation: Option<u64>,
}

/// A data file of the operations log, with the commit version that added it.
#[derive(Clone, Copy, Debug)]
pub struct OperationLogFile {
    version: u64,
    size: i64,
    stats: Option<FileOperationStats>,
}

/// Whether a file only holds quad insertions: `None` when this cannot be told (no
/// statistics, no rows, or no recorded operation bounds).
pub open spec fn insertions_only(stats: Option<FileOperationStats>) -> Option<bool> {
    match stats {
        None => None,
        Some(st) => if st.num_records == 0 {
            None
        } else {
            match (st.min_operation, st.max_operation) {
                (Some(lo), Some(hi)) => Some(lo == 21 && hi == 21),
                _ => None,
            }
        },
    }
}

impl OperationLogFile {
    /// The commit version of the file.
    pub closed spec fn spec_version(self) -> u64 {
        self.version
    }

    /// The size of the file in bytes.
    pub closed spec fn spec_size(self) -> i64 {
        self.size
    }

    /// The statistics of the file.
    pub closed spec fn spec_stats(self) -> Option<FileOperationStats> {
        self.stats
    }

    /// Creates a new [`OperationLogFile`].
    pub fn new(version: u64, size: i64, stats: Option<FileOperationStats>) -> (r: Self)
        ensures
            r.spec_version() == version,
            r.spec_size() == size,
            r.spec_stats() == stats,
    {
        OperationLogFile { version, size, stats }
    }

    /// Returns the version that this file belongs to.
    pub fn version(&self) -> (r: u64)
        ensures
            r == self.spec_version(),
    {
        self.version
    }

    /// Returns the size of the file in bytes.
    pub fn size(&self) -> (r: i64)
        ensures
            r == self.spec_size(),
    {
        self.size
    }

    /// Returns whether this file only contains quad insertions, or `None` if its statistics
    /// cannot tell.
    pub fn only_contains_quad_insertions(&self) -> (r: Option<bool>)
        ensures
            r == insertions_only(self.spec_stats()),
    {
        match self.stats {
            None => None,
            Some(st) => {
                if st.num_records == 0 {
                    return None;
                }
                match (st.min_operation, st.max_operation) {
                    (Some(lo), Some(hi)) => {
                        let insert: u64 = 21;
                        Some(lo == insert && hi == insert)
                    },
                    _ => None,
                }
            },
        }
    }
}

/// Every file only holds quad insertions.
pub open spec fn all_insertions(files: Seq<OperationLogFile>) -> bool {
    forall|i: int| 0 <= i < files.len() ==> insertions_only(#[trigger] files[i].spec_stats()) == Some(true)
}

/// The statistics of a file show rows, all of them quad insertions (code 21): its smallest
/// and largest recorded operation codes are both 21.
pub open spec fn file_inserts_only(f: OperationLogFile) -> bool {
    f.spec_stats() matches Some(st) && st.num_records != 0 && st.min_operation == Some(21u64)
        && st.max_operation == Some(21u64)
}

/// A list of log files only appends exactly when each of its files shows only quad
/// insertions; so a file that may remove quads, or whose statistics cannot tell, anywhere in
/// the list (the first, the last or any other) makes the list not append-only.
pub proof fn lemma_appends_only_iff_every_file(files: Seq<OperationLogFile>)
    ensures
        all_insertions(files) <==> forall|i: int| 0 <= i < files.len() ==> #[trigger] file_inserts_only(files[i]),
        forall|i: int| 0 <= i < files.len() && !#[trigger] file_inserts_only(files[i]) ==> !all_insertions(files),
{
    if all_insertions(files) {
        assert forall|i: int| 0 <= i < files.len() implies #[trigger] file_inserts_only(files[i]) by {
            assert(insertions_only(files[i].spec_stats()) == Some(true));
        }
    }
    if forall|i: int| 0 <= i < files.len() ==> #[trigger] file_inserts_only(files[i]) {
        assert forall|i: int| 0 <= i < files.len() implies insertions_only(#[trigger] files[i].spec_stats()) == Some(true) by {
            assert(file_inserts_only(files[i]));
        }
    }
}

/// Appending a file to a list keeps it append-only exactly when the file only inserts quads,
/// and putting lists together keeps them append-only exactly when both are.
pub proof fn lemma_appends_only_compose(a: Seq<OperationLogFile>, b: Seq<OperationLogFile>, f: OperationLogFile)
    ensures
        all_insertions(a.push(f)) <==> all_insertions(a) && file_inserts_only(f),
        all_insertions(a + b) <==> all_insertions(a) && all_insertions(b),
{
    lemma_appends_only_iff_every_file(a);
    lemma_appends_only_iff_every_file(b);
    lemma_appends_only_iff_every_file(a.push(f));
    lemma_appends_only_iff_every_file(a + b);
    assert(a.push(f)[a.len() as int] == f);
    assert forall|i: int| 0 <= i < a.len() implies a.push(f)[i] == a[i] by {}
    assert forall|i: int| 0 <= i < a.len() implies (a + b)[i] == a[i] by {}
    assert forall|i: int| 0 <= i < b.len() implies (a + b)[a.len() + i] == b[i] by {}
    if all_insertions(a) && all_insertions(b) {
        assert forall|i: int| 0 <= i < (a + b).len() implies #[trigger] file_inserts_only((a + b)[i]) by {
            if i >= a.len() {
                assert((a + b)[i] == b[i - a.len()]);
                assert(file_inserts_only(b[i - a.len()]));
            } else {
                assert(file_inserts_only(a[i]));
            }
        }
    }
    if all_insertions(a + b) {
        assert forall|i: int| 0 <= i < b.len() implies #[trigger] file_inserts_only(b[i]) by {
            assert(file_inserts_only((a + b)[a.len() + i]));
        }
        assert forall|i: int| 0 <= i < a.len() implies #[trigger] file_inserts_only(a[i]) by {
            assert(file_inserts_only((a + b)[i]));
        }
    }
    if all_insertions(a.push(f)) {
        assert forall|i: int| 0 <= i < a.len() implies #[trigger] file_inserts_only(a[i]) by {
            assert(file_inserts_only(a.push(f)[i]));
        }
        assert(file_inserts_only(a.push(f)[a.len() as int]));
    }
    if all_insertions(a) && file_inserts_only(f) {
        assert forall|i: int| 0 <= i < a.push(f).len() implies #[trigger] file_inserts_only(a.push(f)[i]) by {
            if i < a.len() {
                assert(file_inserts_only(a[i]));
            }
        }
    }
}

/// A changeset is read lazily only when every log file only inserts quads: a file anywhere in
/// the range that may remove quads makes it eager.
pub proof fn lemma_lazy_only_for_appends(files: Seq<OperationLogFile>, i: int)
    requires
        0 <= i < files.len(),
        !file_inserts_only(files[i]),
    ensures
        !(all_insertions(files) && total_size(files, files.len() as int) > LARGE_CHANGESET_BYTES),
{
    lemma_appends_only_iff_every_file(files);
}

/// The total size of the first `n` files.
pub open spec fn total_size(files: Seq<OperationLogFile>, n: int) -> int
    decreases n,
{
    if n <= 0 {
        0
    } else {
        total_size(files, n - 1) + files[n - 1].spec_size()
    }
}

/// Summing the sizes of the files never leaves the range of `i64`.
pub open spec fn sizes_sum_fits(files: Seq<OperationLogFile>) -> bool {
    forall|n: int| 0 <= n <= files.len() ==> i64::MIN <= #[trigger] total_size(files, n) <= i64::MAX
}

/// The size above which an insertion-only changeset is computed lazily: 100 MiB.
pub const LARGE_CHANGESET_BYTES: i64 = 104857600;

/// Whether every file only contains quad insertions.
pub fn files_only_contain_appends(files: &[OperationLogFile]) -> (r: bool)
    ensures
        r == all_insertions(files@),
        r <==> forall|i: int| 0 <= i < files@.len() ==> #[trigger] file_inserts_only(files@[i]),
{
    proof {
        lemma_appends_only_iff_every_file(files@);
    }
    let n = files.len();
    let mut i: usize = 0;
    while i < n
        invariant
            n == files@.len(),
            i <= n,
            forall|j: int| 0 <= j < i ==> insertions_only(#[trigger] files@[j].spec_stats()) == Some(true),
        decreases n - i,
    {
        match files[i].only_contains_quad_insertions() {
            Some(true) => {},
            _ => {
                proof {
                    assert(!file_inserts_only(files@[i as int]));
                }
                return false;
            },
        }
        i = i + 1;
    }
    true
}

/// Whether the files together hold more than 100 MiB.
pub fn files_are_large(files: &[OperationLogFile]) -> (r: bool)
    requires
        sizes_sum_fits(files@),
    ensures
        r == (total_size(files@, files@.len() as int) > LARGE_CHANGESET_BYTES),
{
    let n = files.len();
    let mut bytes: i64 = 0;
    let mut i: usize = 0;
    while i < n
        invariant
            n == files@.len(),
            i <= n,
            sizes_sum_fits(files@),
            bytes == total_size(files@, i as int),
        decreases n - i,
    {
        assert(i64::MIN <= total_size(files@, i + 1) <= i64::MAX);
        bytes = bytes + files[i].size();
        i = i + 1;
    }
    bytes > LARGE_CHANGESET_BYTES
}

/// How the changeset of a version range is computed.
#[derive(Clone, Copy, Debug, PartialEq, Eq, Structural)]
pub enum ChangesetKind {
    /// Read lazily from the log files on every use (large insertion-only ranges).
    LazyInsertionOnly,
    /// Computed once, held in memory and shared.
    Eager,
}

/// Chooses how the changeset of the given log files is computed: lazily when all files only
/// insert quads and they hold more than 100 MiB, eagerly otherwise.
pub fn choose_changeset_kind(files: &[OperationLogFile]) -> (r: ChangesetKind)
    requires
        all_insertions(files@) ==> sizes_sum_fits(files@),
    ensures
        r == ChangesetKind::LazyInsertionOnly ==> forall|i: int| 0 <= i < files@.len() ==> #[trigger] file_inserts_only(files@[i]),
        r == if all_insertions(files@) && total_size(files@, files@.len() as int)
            > LARGE_CHANGESET_BYTES {
            ChangesetKind::LazyInsertionOnly
        } else {
            ChangesetKind::Eager
        },
{
    if files_only_contain_appends(files) && files_are_large(files) {
        ChangesetKind::LazyInsertionOnly
    } else {
        ChangesetKind::Eager
    }
}

} // verus!

//! The net changeset of a stretch of the operations log.
//!
//! Log rows are read newest first. For every quad, the newest operation on it wins, unless
//! the quad's graph was cleared or dropped after it (such a clear or drop is a barrier for
//! every older quad operation of that graph). Graph operations are kept per graph and
//! operation: a drop always, a clear unless the graph was dropped later, a creation unless the
//! graph was dropped later. Log rows come in batches, and a batch is read down to its first
//! clear of the whole database: the older rows of that batch are skipped (rows of later
//! batches are read again). A clear of the whole database is kept once, without cells. The
//! changeset lists that clear first, then its rows ordered by graph, subject, predicate and
//! object (an absent cell first) and graph operation.
//!
//! Terms are given by integer ids: two cells denote the same term exactly when their ids are
//! equal, and `None` is a null cell (for the graph: the default graph).

use crate::log::operation_of_code;
use std::collections::{BTreeMap, BTreeSet};
use vstd::prelude::*;
use vstd::std_specs::cmp::OrdSpec;
use vstd::std_specs::iter::IteratorSpec;

verus! {

/// A row of the operations log (or of a changeset), its terms given by id.
#[derive(Clone, Copy, Debug, PartialEq, Eq, Structural)]
pub struct LogRow {
    /// The stored operation code.
    pub operation: i8,
    pub graph: Option<u64>,
    pub subject: Option<u64>,
    pub predicate: Option<u64>,
    pub object: Option<u64>,
}

/// The key under which the net changeset keeps a row: its cells, and for a graph operation
/// also the operation (so that a graph can be both dropped and created).
#[derive(Clone, Copy, Debug, PartialEq, Eq, Structural)]
pub struct StateKey {
    pub graph: Option<u64>,
    pub subject: Option<u64>,
    pub predicate: Option<u64>,
    pub object: Option<u64>,
    pub graph_operation: Option<i8>,
}

/// Whether a stored code is a graph-level operation (drop, clear or create).
pub open spec fn is_graph_code(code: i8) -> bool {
    code == 10 || code == 11 || code == 12
}

/// Whether a stored code clears the whole database.
pub open spec fn is_clear_all_code(code: i8) -> bool {
    code == 0
}

/// The key of a clear of the whole database: no cells.
pub open spec fn clear_all_key() -> StateKey {
    StateKey { graph: None, subject: None, predicate: None, object: None, graph_operation: Some(0i8) }
}

/// The key of a row: for a clear of the whole database the key without cells (its cells are
/// null), otherwise its cells and, for a graph operation, the operation.
pub open spec fn state_key(r: LogRow) -> StateKey {
    if is_clear_all_code(r.operation) {
        clear_all_key()
    } else {
        StateKey {
        graph: r.graph,
        subject: r.subject,
        predicate: r.predicate,
        object: r.object,
        graph_operation: if is_graph_code(r.operation) {
            Some(r.operation)
        } else {
            None
        },
        }
    }
}

/// The row of the changeset that a key and its operation stand for.
pub open spec fn key_row(k: StateKey, operation: i8) -> LogRow {
    LogRow {
        operation,
        graph: k.graph,
        subject: k.subject,
        predicate: k.predicate,
        object: k.object,
    }
}

/// Row `j` clears or drops graph `g`.
pub open spec fn is_barrier(rows: Seq<LogRow>, j: int, g: Option<u64>) -> bool {
    rows[j].graph == g && (rows[j].operation == 10 || rows[j].operation == 11)
}

/// Row `j` drops graph `g`.
pub open spec fn is_drop(rows: Seq<LogRow>, j: int, g: Option<u64>) -> bool {
    rows[j].graph == g && rows[j].operation == 10
}

/// Graph `g` is cleared or dropped by a row newer than row `i`.
pub open spec fn barrier_before(rows: Seq<LogRow>, i: int, g: Option<u64>) -> bool {
    exists|j: int| 0 <= j < i && #[trigger] is_barrier(rows, j, g)
}

/// Graph `g` is dropped by a row newer than row `i`.
pub open spec fn dropped_before(rows: Seq<LogRow>, i: int, g: Option<u64>) -> bool {
    exists|j: int| 0 <= j < i && #[trigger] is_drop(rows, j, g)
}

/// Row `j` clears the whole database.
pub open spec fn is_clear_all(rows: Seq<LogRow>, j: int) -> bool {
    is_clear_all_code(rows[j].operation)
}

/// No row before row `i` clears the whole database.
pub open spec fn clear_free(rows: Seq<LogRow>, i: int) -> bool {
    forall|j: int| 0 <= j < i ==> !#[trigger] is_clear_all(rows, j)
}

/// The rows of a batch that are read: the rows up to and including its first clear of the
/// whole database, whose older rows in the batch are skipped; all of them when it has none.
pub open spec fn read_part(batch: Seq<LogRow>) -> Seq<LogRow> {
    if exists|i: int| 0 <= i < batch.len() && is_clear_all(batch, i) && clear_free(batch, i) {
        let i = choose|i: int| 0 <= i < batch.len() && is_clear_all(batch, i) && clear_free(batch, i);
        batch.take(i + 1)
    } else {
        batch
    }
}

/// A batch is read down to its first clear of the whole database and no further.
pub proof fn lemma_read_part_at_clear(batch: Seq<LogRow>, i: int)
    requires
        0 <= i < batch.len(),
        is_clear_all(batch, i),
        clear_free(batch, i),
    ensures
        read_part(batch) == batch.take(i + 1),
{
    let c = choose|c: int| 0 <= c < batch.len() && is_clear_all(batch, c) && clear_free(batch, c);
    if c < i {
        assert(!is_clear_all(batch, c));
    }
    if i < c {
        assert(!is_clear_all(batch, i));
    }
}

/// A batch without a clear of the whole database is read whole.
pub proof fn lemma_read_part_without_clear(batch: Seq<LogRow>)
    requires
        clear_free(batch, batch.len() as int),
    ensures
        read_part(batch) == batch,
{
}

/// Row `i` is not shadowed by a newer barrier: a clear of the whole database always counts;
/// a drop or a creation survives unless its graph is dropped by a newer row, a clear or a quad
/// operation unless its graph is cleared or dropped by a newer row.
pub open spec fn row_survives(rows: Seq<LogRow>, i: int) -> bool {
    let r = rows[i];
    if is_clear_all_code(r.operation) {
        true
    } else if r.operation == 10 || r.operation == 12 {
        !dropped_before(rows, i, r.graph)
    } else {
        !barrier_before(rows, i, r.graph)
    }
}

/// The operation of the newest surviving row among the first `n` rows whose key is `k`.
pub open spec fn first_surviving(rows: Seq<LogRow>, n: int, k: StateKey) -> Option<i8>
    decreases n,
{
    if n <= 0 {
        None
    } else {
        match first_surviving(rows, n - 1, k) {
            Some(op) => Some(op),
            None => if row_survives(rows, n - 1) && state_key(rows[n - 1]) == k {
                Some(rows[n - 1].operation)
            } else {
                None
            },
        }
    }
}

/// Every row carries a valid operation code.
pub open spec fn all_operations_valid(rows: Seq<LogRow>) -> bool {
    forall|i: int| 0 <= i < rows.len() ==> (#[trigger] operation_of_code(rows[i].operation)) is Some
}

/// A key as the tuple of its cells and graph operation, which orders keys as the changeset
/// lists them.
pub type KeyTuple = (Option<u64>, Option<u64>, Option<u64>, Option<u64>, Option<i8>);

/// The tuple of a key.
pub open spec fn key_tuple(k: StateKey) -> KeyTuple {
    (k.graph, k.subject, k.predicate, k.object, k.graph_operation)
}

/// The key of a tuple.
pub open spec fn tuple_key(t: KeyTuple) -> StateKey {
    StateKey { graph: t.0, subject: t.1, predicate: t.2, object: t.3, graph_operation: t.4 }
}

/// The operation kept for `k`: a clear of the whole database is kept apart, every other key
/// in the map.
pub open spec fn kept_entry(entries: Map<KeyTuple, i8>, cleared: bool, k: StateKey) -> Option<i8> {
    if k.graph_operation == Some(0i8) {
        if cleared && k == clear_all_key() {
            Some(0i8)
        } else {
            None
        }
    } else if entries.contains_key(key_tuple(k)) {
        Some(entries[key_tuple(k)])
    } else {
        None
    }
}

/// Accumulates the net changeset while log rows are read newest first.
pub struct ComputeLogChangesetState {
    /// The final operation of every key seen so far but a clear of the whole database.
    entries: BTreeMap<KeyTuple, i8>,
    /// Whether a clear of the whole database is kept.
    cleared: bool,
    /// Graphs that have been cleared (and not dropped before).
    cleared_graphs: BTreeSet<Option<u64>>,
    /// Graphs that have been dropped.
    dropped_graphs: BTreeSet<Option<u64>>,
    /// The rows read so far.
    processed: Ghost<Seq<LogRow>>,
}

impl ComputeLogChangesetState {
    /// The rows read so far, newest first.
    pub closed spec fn rows(self) -> Seq<LogRow> {
        self.processed@
    }

    /// The operation that the state keeps for `k`.
    pub closed spec fn entry(self, k: StateKey) -> Option<i8> {
        kept_entry(self.entries@, self.cleared, k)
    }

    /// The state agrees with the rows read so far.
    pub closed spec fn wf(self) -> bool {
        let rows = self.processed@;
        let n = rows.len() as int;
        &&& forall|t: KeyTuple| #[trigger] self.entries@.contains_key(t) ==> t.4 != Some(0i8)
        &&& forall|k: StateKey| #[trigger] kept_entry(self.entries@, self.cleared, k) == first_surviving(rows, n, k)
        &&& forall|g: Option<u64>|
            #[trigger] self.dropped_graphs@.contains(g) <==> dropped_before(rows, n, g)
        &&& forall|g: Option<u64>|
            (#[trigger] self.cleared_graphs@.contains(g) || self.dropped_graphs@.contains(g))
                <==> barrier_before(rows, n, g)
    }

    /// Creates an empty state.
    pub fn new() -> (r: Self)
        ensures
            r.wf(),
            r.rows() == Seq::<LogRow>::empty(),
    {
        let r = ComputeLogChangesetState {
            entries: BTreeMap::new(),
            cleared: false,
            cleared_graphs: BTreeSet::new(),
            dropped_graphs: BTreeSet::new(),
            processed: Ghost(Seq::empty()),
        };
        proof {
            assert forall|k: StateKey| #[trigger] kept_entry(r.entries@, r.cleared, k) == first_surviving(r.processed@, 0, k) by {
            }
        }
        r
    }
}


/// Appending a row changes neither the survival of older rows nor their barriers.
proof fn lemma_push_keeps_prefix(rows: Seq<LogRow>, row: LogRow)
    ensures
        forall|m: int, g: Option<u64>|
            0 <= m <= rows.len() ==> (barrier_before(rows.push(row), m, g) == barrier_before(
                rows,
                m,
                g,
            ) && dropped_before(rows.push(row), m, g) == dropped_before(rows, m, g)),
        forall|j: int| 0 <= j < rows.len() ==> row_survives(rows.push(row), j) == row_survives(rows, j),
{
    let r2 = rows.push(row);
    assert forall|m: int, g: Option<u64>| 0 <= m <= rows.len() implies (barrier_before(r2, m, g)
        == barrier_before(rows, m, g) && dropped_before(r2, m, g) == dropped_before(
        rows,
        m,
        g,
    )) by {
        if barrier_before(r2, m, g) {
            let j = choose|j: int| 0 <= j < m && #[trigger] is_barrier(r2, j, g);
            assert(is_barrier(rows, j, g));
        }
        if barrier_before(rows, m, g) {
            let j = choose|j: int| 0 <= j < m && #[trigger] is_barrier(rows, j, g);
            assert(is_barrier(r2, j, g));
        }
        if dropped_before(r2, m, g) {
            let j = choose|j: int| 0 <= j < m && #[trigger] is_drop(r2, j, g);
            assert(is_drop(rows, j, g));
        }
        if dropped_before(rows, m, g) {
            let j = choose|j: int| 0 <= j < m && #[trigger] is_drop(rows, j, g);
            assert(is_drop(r2, j, g));
        }
    }
}

/// The barriers after appending a row are the old ones and those of the appended row.
proof fn lemma_push_barriers(rows: Seq<LogRow>, row: LogRow, g: Option<u64>)
    ensures
        barrier_before(rows.push(row), rows.len() + 1int, g) == (barrier_before(rows, rows.len() as int, g)
            || is_barrier(rows.push(row), rows.len() as int, g)),
        dropped_before(rows.push(row), rows.len() + 1int, g) == (dropped_before(rows, rows.len() as int, g)
            || is_drop(rows.push(row), rows.len() as int, g)),
{
    let r2 = rows.push(row);
    let n = rows.len() as int;
    lemma_push_keeps_prefix(rows, row);
    if barrier_before(r2, n + 1, g) {
        let j = choose|j: int| 0 <= j < n + 1 && #[trigger] is_barrier(r2, j, g);
        if j < n {
            assert(barrier_before(r2, n, g));
        }
    }
    if barrier_before(r2, n, g) {
        let j = choose|j: int| 0 <= j < n && #[trigger] is_barrier(r2, j, g);
        assert(barrier_before(r2, n + 1, g));
    }
    if is_barrier(r2, n, g) {
        assert(barrier_before(r2, n + 1, g));
    }
    if dropped_before(r2, n + 1, g) {
        let j = choose|j: int| 0 <= j < n + 1 && #[trigger] is_drop(r2, j, g);
        if j < n {
            assert(dropped_before(r2, n, g));
        }
    }
    if dropped_before(r2, n, g) {
        let j = choose|j: int| 0 <= j < n && #[trigger] is_drop(r2, j, g);
        assert(dropped_before(r2, n + 1, g));
    }
    if is_drop(r2, n, g) {
        assert(dropped_before(r2, n + 1, g));
    }
}

/// Appending a row leaves the newest surviving operation of every key among older rows as it
/// was.
proof fn lemma_first_surviving_prefix(rows: Seq<LogRow>, row: LogRow, m: int, k: StateKey)
    requires
        0 <= m <= rows.len(),
    ensures
        first_surviving(rows.push(row), m, k) == first_surviving(rows, m, k),
    decreases m,
{
    if m > 0 {
        lemma_first_surviving_prefix(rows, row, m - 1, k);
        lemma_push_keeps_prefix(rows, row);
        assert(rows.push(row)[m - 1] == rows[m - 1]);
    }
}

/// The operation kept for a key restores the key: the changeset row of the key and its
/// operation has that key.
proof fn lemma_first_surviving_key(rows: Seq<LogRow>, n: int, k: StateKey)
    ensures
        first_surviving(rows, n, k) matches Some(op) ==> state_key(key_row(k, op)) == k,
    decreases n,
{
    if n > 0 {
        lemma_first_surviving_key(rows, n - 1, k);
    }
}

/// The order of optional cells: an absent cell first, then by value.
pub open spec fn cell_lt(a: Option<u64>, b: Option<u64>) -> bool {
    match (a, b) {
        (None, Some(_)) => true,
        (Some(x), Some(y)) => x < y,
        _ => false,
    }
}

/// The order of optional graph operation codes: none first, then by code.
pub open spec fn code_lt(a: Option<i8>, b: Option<i8>) -> bool {
    match (a, b) {
        (None, Some(_)) => true,
        (Some(x), Some(y)) => x < y,
        _ => false,
    }
}

/// The key order of the cells: graph, subject, predicate, object, then the graph operation.
pub open spec fn cells_lt(a: StateKey, b: StateKey) -> bool {
    if a.graph != b.graph {
        cell_lt(a.graph, b.graph)
    } else if a.subject != b.subject {
        cell_lt(a.subject, b.subject)
    } else if a.predicate != b.predicate {
        cell_lt(a.predicate, b.predicate)
    } else if a.object != b.object {
        cell_lt(a.object, b.object)
    } else {
        code_lt(a.graph_operation, b.graph_operation)
    }
}

/// The order in which a net changeset lists its keys: a clear of the whole database first,
/// then by the cells.
pub open spec fn key_lt(a: StateKey, b: StateKey) -> bool {
    let ca = a.graph_operation == Some(0i8);
    let cb = b.graph_operation == Some(0i8);
    (ca && !cb) || (ca == cb && cells_lt(a, b))
}

/// The rows are listed in strictly increasing key order.
pub open spec fn keys_ascending(rows: Seq<LogRow>) -> bool {
    forall|a: int, b: int| 0 <= a < b < rows.len() ==> key_lt(state_key(#[trigger] rows[a]), state_key(#[trigger] rows[b]))
}

/// The key order is a strict total order.
pub proof fn lemma_key_order(a: StateKey, b: StateKey, c: StateKey)
    ensures
        !key_lt(a, a),
        a != b ==> key_lt(a, b) || key_lt(b, a),
        key_lt(a, b) && key_lt(b, c) ==> key_lt(a, c),
{
}

/// Whether key `a` comes before key `b`.
fn key_less(a: &StateKey, b: &StateKey) -> (r: bool)
    ensures
        r == key_lt(*a, *b),
{
    let ca = match a.graph_operation {
        Some(c) => c == 0,
        None => false,
    };
    let cb = match b.graph_operation {
        Some(c) => c == 0,
        None => false,
    };
    if ca != cb {
        return ca;
    }
    if !cell_eq(a.graph, b.graph) {
        return cell_less(a.graph, b.graph);
    }
    if !cell_eq(a.subject, b.subject) {
        return cell_less(a.subject, b.subject);
    }
    if !cell_eq(a.predicate, b.predicate) {
        return cell_less(a.predicate, b.predicate);
    }
    if !cell_eq(a.object, b.object) {
        return cell_less(a.object, b.object);
    }
    match (a.graph_operation, b.graph_operation) {
        (None, Some(_)) => true,
        (Some(x), Some(y)) => x < y,
        _ => false,
    }
}

fn cell_eq(a: Option<u64>, b: Option<u64>) -> (r: bool)
    ensures
        r == (a == b),
{
    match (a, b) {
        (None, None) => true,
        (Some(x), Some(y)) => x == y,
        _ => false,
    }
}

fn cell_less(a: Option<u64>, b: Option<u64>) -> (r: bool)
    ensures
        r == cell_lt(a, b),
{
    match (a, b) {
        (None, Some(_)) => true,
        (Some(x), Some(y)) => x < y,
        _ => false,
    }
}

impl ComputeLogChangesetState {
    /// Keeps the operation of a key unless the key is already kept (a newer operation on it
    /// has been read).
    fn add_row_if_absent(&mut self, k: StateKey, op: i8)
        requires
            forall|t: KeyTuple| #[trigger] old(self).entries@.contains_key(t) ==> t.4 != Some(0i8),
            k.graph_operation == Some(0i8) ==> op == 0 && k == clear_all_key(),
        ensures
            forall|t: KeyTuple| #[trigger] final(self).entries@.contains_key(t) ==> t.4 != Some(0i8),
            forall|k2: StateKey|
                #[trigger] kept_entry(final(self).entries@, final(self).cleared, k2) == if k2 == k
                    && kept_entry(old(self).entries@, old(self).cleared, k) is None {
                    Some(op)
                } else {
                    kept_entry(old(self).entries@, old(self).cleared, k2)
                },
            final(self).cleared_graphs == old(self).cleared_graphs,
            final(self).dropped_graphs == old(self).dropped_graphs,
            final(self).processed == old(self).processed,
    {
        broadcast use vstd::std_specs::btree::group_btree_axioms;

        proof {
            lemma_keys_are_ordered();
        }
        let t: KeyTuple = (k.graph, k.subject, k.predicate, k.object, k.graph_operation);
        let clears_all = match k.graph_operation {
            Some(c) => c == 0,
            None => false,
        };
        if clears_all {
            self.cleared = true;
        } else if !self.entries.contains_key(&t) {
            self.entries.insert(t, op);
        }
        proof {
            assert forall|k2: StateKey|
                #[trigger] kept_entry(self.entries@, self.cleared, k2) == if k2 == k
                    && kept_entry(old(self).entries@, old(self).cleared, k) is None {
                    Some(op)
                } else {
                    kept_entry(old(self).entries@, old(self).cleared, k2)
                } by {
                if k2 != k {
                    assert(key_tuple(k2) != key_tuple(k));
                }
            }
        }
    }

    /// Reads one log row (newer than none of the rows read so far).
    #[verifier::spinoff_prover]
    #[verifier::rlimit(30)]
    pub fn process_row(&mut self, row: LogRow)
        requires
            old(self).wf(),
            operation_of_code(row.operation) is Some,
        ensures
            final(self).wf(),
            final(self).rows() == old(self).rows().push(row),
    {
        broadcast use vstd::std_specs::btree::group_btree_axioms;

        proof {
            lemma_keys_are_ordered();
        }
        let ghost rows = self.processed@;
        let ghost n = rows.len() as int;
        let ghost rows2 = rows.push(row);
        proof {
            lemma_push_keeps_prefix(rows, row);
            assert(rows2[n] == row);
        }
        let g = row.graph;
        let in_dropped = self.dropped_graphs.contains(&g);
        let in_cleared = self.cleared_graphs.contains(&g);
        let is_graph_op = row.operation == 10 || row.operation == 11 || row.operation == 12;
        let k = if row.operation == 0 {
            StateKey { graph: None, subject: None, predicate: None, object: None, graph_operation: Some(0) }
        } else {
            StateKey {
                graph: row.graph,
                subject: row.subject,
                predicate: row.predicate,
                object: row.object,
                graph_operation: if is_graph_op {
                    Some(row.operation)
                } else {
                    None
                },
            }
        };
        assert(k == state_key(row));
        let survives = if row.operation == 0 {
            true
        } else if row.operation == 10 || row.operation == 12 {
            !in_dropped
        } else {
            !in_cleared && !in_dropped
        };
        assert(survives == row_survives(rows2, n));
        if survives {
            self.add_row_if_absent(k, row.operation);
        }
        if row.operation == 10 && !in_dropped {
            self.dropped_graphs.insert(g);
        }
        if row.operation == 11 && !in_cleared && !in_dropped {
            self.cleared_graphs.insert(g);
        }
        self.processed = Ghost(rows2);
        proof {
            assert forall|k2: StateKey| #[trigger]
                kept_entry(self.entries@, self.cleared, k2) == first_surviving(rows2, n + 1, k2) by {
                lemma_first_surviving_prefix(rows, row, n, k2);
            }
            let old_dropped = old(self).dropped_graphs@;
            let old_cleared = old(self).cleared_graphs@;
            let new_dropped = self.dropped_graphs@;
            let new_cleared = self.cleared_graphs@;
            assert(new_dropped == if row.operation == 10 && !in_dropped {
                old_dropped.insert(g)
            } else {
                old_dropped
            });
            assert(new_cleared == if row.operation == 11 && !in_cleared && !in_dropped {
                old_cleared.insert(g)
            } else {
                old_cleared
            });
            assert forall|g2: Option<u64>| #[trigger]
                new_dropped.contains(g2) <==> dropped_before(rows2, n + 1, g2) by {
                lemma_push_barriers(rows, row, g2);
                assert(is_drop(rows2, n, g2) == (g == g2 && row.operation == 10));
            }
            assert forall|g2: Option<u64>|
                (#[trigger] new_cleared.contains(g2) || new_dropped.contains(g2))
                    <==> barrier_before(rows2, n + 1, g2) by {
                lemma_push_barriers(rows, row, g2);
                assert(is_barrier(rows2, n, g2) == (g == g2 && (row.operation == 10 || row.operation == 11)));
                assert(is_drop(rows2, n, g2) == (g == g2 && row.operation == 10));
                assert(new_dropped.contains(g2) == (old_dropped.contains(g2) || (g2 == g && row.operation == 10 && !in_dropped)));
                assert(new_cleared.contains(g2) == (old_cleared.contains(g2) || (g2 == g && row.operation == 11 && !in_cleared && !in_dropped)));
            }
            assert(self.processed@ == rows2);
            assert(self.wf());
        }
    }
}


/// The rows of a net changeset: each kept key once, with the operation of its newest surviving
/// row, and nothing else.
pub open spec fn is_net_changeset(rows: Seq<LogRow>, result: Seq<LogRow>) -> bool {
    let n = rows.len() as int;
    &&& forall|i: int|
        0 <= i < result.len() ==> first_surviving(rows, n, state_key(#[trigger] result[i]))
            == Some(result[i].operation)
    &&& forall|k: StateKey|
        #[trigger] first_surviving(rows, n, k) is Some ==> exists|i: int|
            0 <= i < result.len() && state_key(#[trigger] result[i]) == k
    &&& forall|i: int, j: int|
        0 <= i < result.len() && 0 <= j < result.len() && i != j ==> state_key(#[trigger] result[i])
            != state_key(#[trigger] result[j])
}

impl ComputeLogChangesetState {
    /// Reads a batch of log rows, newest first (and no older than the rows read before), down
    /// to its first clear of the whole database.
    pub fn process_batch(&mut self, rows: &[LogRow])
        requires
            old(self).wf(),
            all_operations_valid(rows@),
        ensures
            final(self).wf(),
            final(self).rows() == old(self).rows() + read_part(rows@),
    {
        let n = rows.len();
        let mut i: usize = 0;
        while i < n
            invariant
                n == rows@.len(),
                i <= n,
                all_operations_valid(rows@),
                self.wf(),
                clear_free(rows@, i as int),
                self.rows() == old(self).rows() + rows@.take(i as int),
            decreases n - i,
        {
            assert(operation_of_code(rows@[i as int].operation) is Some);
            self.process_row(rows[i]);
            assert(old(self).rows() + rows@.take(i + 1) =~= (old(self).rows()
                + rows@.take(i as int)).push(rows@[i as int]));
            if rows[i].operation == 0 {
                proof {
                    lemma_read_part_at_clear(rows@, i as int);
                }
                return;
            }
            i = i + 1;
        }
        proof {
            assert(rows@.take(n as int) =~= rows@);
            lemma_read_part_without_clear(rows@);
        }
    }

    /// Materializes the net changeset of the rows read so far, in key order: a clear of the
    /// whole database first, then by graph, subject, predicate, object (an absent cell first)
    /// and graph operation.
    pub fn finish(&self) -> (r: Vec<LogRow>)
        requires
            self.wf(),
        ensures
            is_net_changeset(self.rows(), r@),
            keys_ascending(r@),
    {
        let ghost rows = self.processed@;
        let ghost total = rows.len() as int;
        let mut out: Vec<LogRow> = Vec::new();
        if self.cleared {
            out.push(LogRow { operation: 0, graph: None, subject: None, predicate: None, object: None });
        }
        let ghost base = out@;
        proof {
            if self.cleared {
                assert(base.len() == 1 && base[0] == key_row(clear_all_key(), 0i8));
            }
        }
        let sorted = entries_in_order(&self.entries);
        let n = sorted.len();
        let mut i: usize = 0;
        while i < n
            invariant
                n == sorted@.len(),
                i <= n,
                self.wf(),
                rows == self.processed@,
                total == rows.len(),
                self.cleared ==> base.len() == 1 && base[0] == key_row(clear_all_key(), 0i8),
                !self.cleared ==> base.len() == 0,
                out@.len() == base.len() + i,
                forall|j: int| 0 <= j < base.len() ==> out@[j] == base[j],
                forall|j: int| 0 <= j < i ==> #[trigger] out@[base.len() + j] == key_row(tuple_key(sorted@[j].0), sorted@[j].1),
            decreases n - i,
        {
            let (t, op) = sorted[i];
            out.push(LogRow { operation: op, graph: t.0, subject: t.1, predicate: t.2, object: t.3 });
            proof {
                assert(out@[base.len() + i] == key_row(tuple_key(sorted@[i as int].0), sorted@[i as int].1));
            }
            i = i + 1;
        }
        proof {
            let m = self.entries@;
            let c = self.cleared;
            let b = base.len() as int;
            // Every map entry, and the kept clear, is the row of its key.
            assert forall|j: int| 0 <= j < n implies #[trigger] state_key(out@[b + j]) == tuple_key(sorted@[j].0)
                && first_surviving(rows, total, tuple_key(sorted@[j].0)) == Some(out@[b + j].operation) by {
                let t = sorted@[j].0;
                assert(key_tuple(tuple_key(t)) == t);
                assert(kept_entry(m, c, tuple_key(t)) == Some(sorted@[j].1));
                lemma_first_surviving_key(rows, total, tuple_key(t));
            }
            if c {
                assert(kept_entry(m, c, clear_all_key()) == Some(0i8));
                assert(out@[0] == key_row(clear_all_key(), 0i8));
                assert(state_key(out@[0]) == clear_all_key());
            }
            assert forall|j: int| 0 <= j < out@.len() implies first_surviving(
                rows,
                total,
                state_key(#[trigger] out@[j]),
            ) == Some(out@[j].operation) by {
                if j >= b {
                    assert(out@[b + (j - b)] == out@[j]);
                }
            }
            assert forall|k: StateKey| #[trigger] first_surviving(rows, total, k) is Some implies exists|
                j: int,
            | 0 <= j < out@.len() && state_key(#[trigger] out@[j]) == k by {
                assert(kept_entry(m, c, k) is Some);
                if k.graph_operation == Some(0i8) {
                    assert(k == clear_all_key());
                    assert(state_key(out@[0]) == k);
                } else {
                    assert(m.contains_key(key_tuple(k)));
                    assert(tuple_key(key_tuple(k)) == k);
                    let j = choose|j: int| 0 <= j < sorted@.len() && sorted@[j].0 == key_tuple(k);
                    assert(state_key(out@[b + j]) == k);
                }
            }
            assert forall|x: int, y: int| 0 <= x < y < out@.len() implies key_lt(state_key(#[trigger] out@[x]), state_key(#[trigger] out@[y])) by {
                assert(out@[b + (y - b)] == out@[y]);
                let ty = sorted@[y - b].0;
                assert(m.contains_key(ty));
                if x < b {
                    assert(state_key(out@[x]).graph_operation == Some(0i8));
                } else {
                    assert(out@[b + (x - b)] == out@[x]);
                    let tx = sorted@[x - b].0;
                    assert(m.contains_key(tx));
                }
            }
            assert forall|x: int, y: int| 0 <= x < out@.len() && 0 <= y < out@.len() && x != y
                implies state_key(#[trigger] out@[x]) != state_key(#[trigger] out@[y]) by {
                if x < y {
                    lemma_key_order(state_key(out@[x]), state_key(out@[y]), state_key(out@[y]));
                } else {
                    lemma_key_order(state_key(out@[y]), state_key(out@[x]), state_key(out@[x]));
                }
            }
        }
        out
    }
}

/// The entries of a map, each once, in the order of their keys.
fn entries_in_order(m: &BTreeMap<KeyTuple, i8>) -> (r: Vec<(KeyTuple, i8)>)
    ensures
        forall|i: int| 0 <= i < r@.len() ==> m@.contains_key(#[trigger] r@[i].0) && m@[r@[i].0] == r@[i].1,
        forall|t: KeyTuple| #[trigger] m@.contains_key(t) ==> exists|i: int| 0 <= i < r@.len() && r@[i].0 == t,
        forall|i: int, j: int| 0 <= i < j < r@.len() ==> cells_lt(tuple_key(#[trigger] r@[i].0), tuple_key(#[trigger] r@[j].0)),
{
    broadcast use vstd::std_specs::btree::group_btree_axioms;

    proof {
        lemma_keys_are_ordered();
    }
    let mut out: Vec<(KeyTuple, i8)> = Vec::new();
    for kv in it: m.iter()
        invariant
            out@.len() == it.index(),
            it.seq() == m.iter().remaining(),
            forall|i: int| 0 <= i < out@.len() ==> out@[i] == (*it.seq()[i].0, *it.seq()[i].1),
    {
        out.push((*kv.0, *kv.1));
    }
    proof {
        let v = m.iter().remaining();
        let ks = v.map_values(|kv: (&KeyTuple, &i8)| *kv.0);
        assert(vstd::std_specs::btree::increasing_seq(ks));
        assert forall|i: int, j: int| 0 <= i < j < out@.len() implies cells_lt(tuple_key(#[trigger] out@[i].0), tuple_key(#[trigger] out@[j].0)) by {
            assert(ks[i] == out@[i].0);
            assert(ks[j] == out@[j].0);
            lemma_tuple_order(out@[i].0, out@[j].0);
        }
        assert forall|t: KeyTuple| #[trigger] m@.contains_key(t) implies exists|i: int| 0 <= i < out@.len() && out@[i].0 == t by {
            assert(v.contains((&t, &m@[t])));
            let i = choose|i: int| 0 <= i < v.len() && v[i] == (&t, &m@[t]);
            assert(out@[i].0 == t);
        }
    }
    out
}

/// Keys, and graph cells, are ordered as the maps and sets of the state need.
proof fn lemma_keys_are_ordered()
    ensures
        vstd::laws_cmp::obeys_cmp::<KeyTuple>(),
        vstd::laws_cmp::obeys_cmp::<Option<u64>>(),
{
    broadcast use vstd::laws_cmp::group_laws_cmp;

}

/// The order of tuples is the order of the cells of their keys.
proof fn lemma_tuple_order(a: KeyTuple, b: KeyTuple)
    ensures
        a.cmp_spec(&b) is Less ==> cells_lt(tuple_key(a), tuple_key(b)),
{
}

/// Computes the net changeset of log rows given newest first: for every key the operation of
/// its newest row that no newer clear or drop of its graph shadows, listed in key order.
pub fn compute_net_changeset(rows: &[LogRow]) -> (r: Vec<LogRow>)
    requires
        all_operations_valid(rows@),
    ensures
        is_net_changeset(read_part(rows@), r@),
        keys_ascending(r@),
{
    let mut state = ComputeLogChangesetState::new();
    state.process_batch(rows);
    assert(Seq::<LogRow>::empty() + read_part(rows@) =~= read_part(rows@));
    state.finish()
}


/// Row `i` survives and has key `k`.
pub open spec fn contributes(rows: Seq<LogRow>, i: int, k: StateKey) -> bool {
    row_survives(rows, i) && state_key(rows[i]) == k
}

/// The newest operation wins: the operation kept for a key among the first `n` rows is that of
/// the newest surviving row with that key, and no key is kept without such a row.
pub proof fn lemma_newest_surviving_row_wins(rows: Seq<LogRow>, n: int, k: StateKey)
    requires
        0 <= n <= rows.len(),
    ensures
        first_surviving(rows, n, k) matches Some(op) ==> exists|i: int|
            0 <= i < n && #[trigger] contributes(rows, i, k) && rows[i].operation == op && forall|
                j: int,
            | 0 <= j < i ==> !contributes(rows, j, k),
        first_surviving(rows, n, k) is None ==> forall|i: int|
            0 <= i < n ==> !#[trigger] contributes(rows, i, k),
    decreases n,
{
    if n > 0 {
        lemma_newest_surviving_row_wins(rows, n - 1, k);
        if first_surviving(rows, n - 1, k) is None {
            assert forall|i: int| 0 <= i < n - 1 implies !#[trigger] contributes(rows, i, k) by {}
            if contributes(rows, n - 1, k) {
                assert(contributes(rows, n - 1, k));
            }
        }
    }
}

/// Only rows newer than a clear or drop of a graph decide the quads of that graph: the older
/// rows leave the net change of its quads as it is.
pub proof fn lemma_barrier_hides_older_quads(rows: Seq<LogRow>, b: int, m: int, k: StateKey)
    requires
        0 <= b < m <= rows.len(),
        is_barrier(rows, b, k.graph),
        k.graph_operation is None,
    ensures
        first_surviving(rows, m, k) == first_surviving(rows, b + 1, k),
    decreases m,
{
    if m > b + 1 {
        lemma_barrier_hides_older_quads(rows, b, m - 1, k);
        if state_key(rows[m - 1]) == k {
            assert(is_barrier(rows, b, rows[m - 1].graph));
            assert(barrier_before(rows, m - 1, rows[m - 1].graph));
        }
    }
}

/// A drop of a graph hides every older creation of it: the creation of the graph is only kept
/// when a row newer than every drop of it creates it.
pub proof fn lemma_drop_hides_older_creations(rows: Seq<LogRow>, b: int, m: int, g: Option<u64>)
    requires
        0 <= b < m <= rows.len(),
        is_drop(rows, b, g),
    ensures
        first_surviving(
            rows,
            m,
            StateKey {
                graph: g,
                subject: None,
                predicate: None,
                object: None,
                graph_operation: Some(12),
            },
        ) == first_surviving(
            rows,
            b + 1,
            StateKey {
                graph: g,
                subject: None,
                predicate: None,
                object: None,
                graph_operation: Some(12),
            },
        ),
    decreases m,
{
    let k = StateKey {
        graph: g,
        subject: None,
        predicate: None,
        object: None,
        graph_operation: Some(12),
    };
    if m > b + 1 {
        lemma_drop_hides_older_creations(rows, b, m - 1, g);
        if state_key(rows[m - 1]) == k {
            assert(is_drop(rows, b, rows[m - 1].graph));
            assert(dropped_before(rows, m - 1, rows[m - 1].graph));
        }
    }
}

} // verus!

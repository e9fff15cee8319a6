//! Version ranges and operation codes of the append-only operations log.

use vstd::prelude::*;

verus! {

/// A syntactically valid range of log version numbers. [`Self::try_new`] guarantees that the
/// ending version lies after the starting version; [`Self::new_unchecked`] does not check it.
///
/// This does not guarantee that the versions exist in the underlying table.
#[derive(Debug, Clone, Copy, PartialEq, Eq, Hash, Structural)]
pub struct DeltaStorageLogVersionRange(pub(crate) u64, pub(crate) u64);

impl DeltaStorageLogVersionRange {
    /// The starting version of the range.
    pub closed spec fn start(self) -> u64 {
        self.0
    }

    /// The ending version of the range.
    pub closed spec fn end(self) -> u64 {
        self.1
    }

    /// A range is its two versions: ranges with the same versions are the same value.
    pub proof fn lemma_range_by_versions(self, other: Self)
        ensures
            (self == other) <==> (self.start() == other.start() && self.end() == other.end()),
    {
    }

    /// Creates a new range if the ending version is greater than the starting version and
    /// returns `None` otherwise.
    pub fn try_new(starting_version: u64, ending_version: u64) -> (r: Option<Self>)
        ensures
            r is Some <==> starting_version < ending_version,
            r matches Some(range) ==> range.start() == starting_version && range.end()
                == ending_version,
    {
        if ending_version <= starting_version {
            return None;
        }
        Some(DeltaStorageLogVersionRange(starting_version, ending_version))
    }

    /// Creates a new range without checking that the ending version follows the starting one.
    pub fn new_unchecked(starting_version: u64, ending_version: u64) -> (r: Self)
        ensures
            r.start() == starting_version,
            r.end() == ending_version,
    {
        DeltaStorageLogVersionRange(starting_version, ending_version)
    }

    /// Returns the starting version of the range.
    pub fn starting_version(&self) -> (r: u64)
        ensures
            r == self.start(),
    {
        self.0
    }

    /// Returns the ending version of the range.
    pub fn ending_version(&self) -> (r: u64)
        ensures
            r == self.end(),
    {
        self.1
    }
}

/// An operation recorded in the log.
#[derive(Debug, Clone, Copy, PartialEq, Eq, Hash, PartialOrd, Ord, Structural)]
pub enum DeltaStorageLogOperation {
    /// Clears the whole database: every older operation is void. All columns are null.
    ClearDatabase,
    /// Drops a single graph. The graph column is null (the default graph) or set (a named
    /// graph); the other columns are null.
    DropGraph,
    /// Clears all quads from a single graph. The graph column is null (the default graph) or
    /// set (a named graph); the other columns are null.
    ClearGraph,
    /// Adds a graph to the database. The graph column should be non-null.
    CreateGraph,
    /// Removes a quad from the database.
    RemoveQuad,
    /// Adds a quad to the database.
    InsertQuad,
}

/// The stored code of an operation.
pub open spec fn stored_code(op: DeltaStorageLogOperation) -> i8 {
    match op {
        DeltaStorageLogOperation::ClearDatabase => 0,
        DeltaStorageLogOperation::DropGraph => 10,
        DeltaStorageLogOperation::ClearGraph => 11,
        DeltaStorageLogOperation::CreateGraph => 12,
        DeltaStorageLogOperation::RemoveQuad => 20,
        DeltaStorageLogOperation::InsertQuad => 21,
    }
}

/// The operation that a stored code denotes, if any.
pub open spec fn operation_of_code(value: i8) -> Option<DeltaStorageLogOperation> {
    if value == 0 {
        Some(DeltaStorageLogOperation::ClearDatabase)
    } else if value == 10 {
        Some(DeltaStorageLogOperation::DropGraph)
    } else if value == 11 {
        Some(DeltaStorageLogOperation::ClearGraph)
    } else if value == 12 {
        Some(DeltaStorageLogOperation::CreateGraph)
    } else if value == 20 {
        Some(DeltaStorageLogOperation::RemoveQuad)
    } else if value == 21 {
        Some(DeltaStorageLogOperation::InsertQuad)
    } else {
        None
    }
}

/// Whether an operation acts on a whole graph.
pub open spec fn is_graph_op(op: DeltaStorageLogOperation) -> bool {
    op is DropGraph || op is ClearGraph || op is CreateGraph
}

impl DeltaStorageLogOperation {
    /// Returns the code of the operation as it is stored in the log table (an `i8`, the
    /// table's byte type).
    pub fn as_stored(self) -> (r: i8)
        ensures
            r == stored_code(self),
    {
        match self {
            DeltaStorageLogOperation::ClearDatabase => 0,
            DeltaStorageLogOperation::DropGraph => 10,
            DeltaStorageLogOperation::ClearGraph => 11,
            DeltaStorageLogOperation::CreateGraph => 12,
            DeltaStorageLogOperation::RemoveQuad => 20,
            DeltaStorageLogOperation::InsertQuad => 21,
        }
    }

    /// Returns the operation of a stored code, or `None` if the code denotes no operation.
    pub fn from_stored(value: i8) -> (r: Option<Self>)
        ensures
            r == operation_of_code(value),
    {
        match value {
            0 => Some(DeltaStorageLogOperation::ClearDatabase),
            10 => Some(DeltaStorageLogOperation::DropGraph),
            11 => Some(DeltaStorageLogOperation::ClearGraph),
            12 => Some(DeltaStorageLogOperation::CreateGraph),
            20 => Some(DeltaStorageLogOperation::RemoveQuad),
            21 => Some(DeltaStorageLogOperation::InsertQuad),
            _ => None,
        }
    }

    /// Returns true if the operation is a graph-level operation.
    pub fn is_graph_operation(self) -> (r: bool)
        ensures
            r == is_graph_op(self),
            r <==> 10 <= stored_code(self) <= 12,
    {
        match self {
            DeltaStorageLogOperation::DropGraph
            | DeltaStorageLogOperation::ClearGraph
            | DeltaStorageLogOperation::CreateGraph => true,
            _ => false,
        }
    }
}

/// Whether an operation acts on the whole database.
pub open spec fn is_global_op(op: DeltaStorageLogOperation) -> bool {
    op is ClearDatabase
}

impl DeltaStorageLogOperation {
    /// Returns true if the operation acts on the whole database.
    pub fn is_global_operation(self) -> (r: bool)
        ensures
            r == is_global_op(self),
    {
        match self {
            DeltaStorageLogOperation::ClearDatabase => true,
            _ => false,
        }
    }
}

/// Decoding a stored operation code gives back the operation that was stored.
pub proof fn lemma_stored_code_roundtrip(op: DeltaStorageLogOperation)
    ensures
        operation_of_code(stored_code(op)) == Some(op),
{
}

/// Every code that decodes to an operation is that operation's stored code.
pub proof fn lemma_decoded_code_is_stored(value: i8)
    ensures
        operation_of_code(value) matches Some(op) ==> stored_code(op) == value,
{
}

/// The graph-level operations are exactly those stored with a code from 10 to 12 (drop, clear
/// and creation of a graph), the codes that the changeset keys by graph operation; no
/// graph-level operation acts on the whole database, and the operations that are neither are
/// exactly the quad operations (codes 20 and 21).
pub proof fn lemma_graph_operations_are_the_graph_codes(op: DeltaStorageLogOperation)
    ensures
        is_graph_op(op) <==> 10 <= stored_code(op) <= 12,
        is_graph_op(op) <==> crate::changeset::is_graph_code(stored_code(op)),
        is_graph_op(op) ==> !is_global_op(op),
        (!is_graph_op(op) && !is_global_op(op)) <==> (stored_code(op) == 20 || stored_code(op) == 21),
{
}

/// Every graph code decodes to a graph-level operation, and every other valid code to an
/// operation that is not one.
pub proof fn lemma_graph_codes_decode_to_graph_operations(code: i8)
    ensures
        operation_of_code(code) matches Some(op) ==> (is_graph_op(op) <==> 10 <= code <= 12),
        10 <= code <= 12 ==> (operation_of_code(code) matches Some(op) && is_graph_op(op)),
{
}

} // verus!

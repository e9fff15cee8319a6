use rdf_fusion_storage::changeset::{compute_net_changeset, ComputeLogChangesetState, LogRow};
use rdf_fusion_storage::hashing::{compute_hash, dictionary_dir_name, get_lmdb_path, to_hex_lower};
use rdf_fusion_storage::log::{DeltaStorageLogOperation, DeltaStorageLogVersionRange};
use rdf_fusion_storage::partition::{
    choose_changeset_kind, partition_changeset_operations, ChangesetKind, FileOperationStats,
    OperationLogFile, PartitionError, RowValidity,
};
use rdf_fusion_storage::planning::{RefreshOutcome, TableRefresher};
use rdf_fusion_storage::planning::{
    added_file_url, encoding_of_graph_column, filter_pushdown, is_fresh, needs_refresh, plan_dataframe_encoding,
    plan_dictionary_sync, plan_index_scan, should_checkpoint, should_flush_writer,
    should_replace_table, writer_count, ColumnConversion, ColumnType, DictionarySync,
    EncodingPlan, StorageEncodingName, TargetEncoding,
};
use rdf_fusion_storage::term::LocalDictionaryTerm;
use md5::{Digest, Md5};

const ADD: i8 = 21;
const REMOVE: i8 = 20;
const DROP: i8 = 10;
const CLEAR: i8 = 11;
const CREATE: i8 = 12;

fn quad(op: i8, g: Option<u64>, s: u64, p: u64, o: u64) -> LogRow {
    LogRow { operation: op, graph: g, subject: Some(s), predicate: Some(p), object: Some(o) }
}

fn graph_op(op: i8, g: u64) -> LogRow {
    LogRow { operation: op, graph: Some(g), subject: None, predicate: None, object: None }
}

/// Computes the net changeset of rows given oldest first, sorted for comparison.
fn net(oldest_first: Vec<LogRow>) -> Vec<LogRow> {
    let newest_first: Vec<LogRow> = oldest_first.into_iter().rev().collect();
    let mut r = compute_net_changeset(&newest_first);
    r.sort_by_key(|x| (x.operation, x.graph, x.subject, x.predicate, x.object));
    r
}

#[test]
fn test_compute_change_log_adding_and_removing() {
    let result = net(vec![
        quad(ADD, None, 11, 12, 13),
        quad(REMOVE, None, 11, 12, 13),
        quad(REMOVE, None, 21, 22, 23),
        quad(ADD, None, 21, 22, 23),
        quad(ADD, None, 31, 32, 33),
    ]);
    assert_eq!(
        result,
        vec![quad(REMOVE, None, 11, 12, 13), quad(ADD, None, 21, 22, 23), quad(ADD, None, 31, 32, 33)]
    );
}

#[test]
fn test_compute_change_log_clear_graph_barrier() {
    let result = net(vec![
        quad(ADD, Some(1), 11, 12, 13),
        quad(ADD, Some(2), 31, 32, 33),
        graph_op(CLEAR, 1),
        quad(ADD, Some(1), 21, 22, 23),
    ]);
    assert_eq!(
        result,
        vec![graph_op(CLEAR, 1), quad(ADD, Some(1), 21, 22, 23), quad(ADD, Some(2), 31, 32, 33)]
    );
}

#[test]
fn test_compute_change_log_drop_create_graph() {
    let result = net(vec![
        graph_op(CREATE, 1),
        quad(ADD, Some(1), 11, 12, 13),
        graph_op(DROP, 1),
        graph_op(CREATE, 1),
        quad(ADD, Some(1), 11, 12, 13),
    ]);
    assert_eq!(result, vec![graph_op(DROP, 1), graph_op(CREATE, 1), quad(ADD, Some(1), 11, 12, 13)]);
}

#[test]
fn test_compute_change_log_drop_graph_barrier_different_quad() {
    let result = net(vec![
        quad(ADD, Some(1), 11, 12, 13),
        graph_op(DROP, 1),
        quad(ADD, Some(1), 21, 22, 23),
    ]);
    assert_eq!(result, vec![graph_op(DROP, 1), quad(ADD, Some(1), 21, 22, 23)]);
}

#[test]
fn test_compute_change_log_drop_graph_barrier_clear_graph() {
    let result = net(vec![graph_op(CLEAR, 1), graph_op(DROP, 1)]);
    assert_eq!(result, vec![graph_op(DROP, 1)]);
}

#[test]
fn test_compute_change_log_drop_graph_barrier_create_graph() {
    let result = net(vec![graph_op(CREATE, 1), graph_op(DROP, 1)]);
    assert_eq!(result, vec![graph_op(DROP, 1)]);
}

#[test]
fn test_compute_change_log_clear_graph_still_shows_create_graph() {
    let result = net(vec![graph_op(CREATE, 1), graph_op(CLEAR, 1)]);
    assert_eq!(result, vec![graph_op(CLEAR, 1), graph_op(CREATE, 1)]);
}

#[test]
fn test_compute_change_log_clear_graph_barrier_quads() {
    let result = net(vec![
        quad(ADD, Some(1), 11, 12, 13),
        graph_op(CLEAR, 1),
        quad(ADD, Some(1), 21, 22, 23),
    ]);
    assert_eq!(result, vec![graph_op(CLEAR, 1), quad(ADD, Some(1), 21, 22, 23)]);
}

#[test]
fn changeset_state_processes_batches_in_turn() {
    let mut state = ComputeLogChangesetState::new();
    state.process_batch(&[quad(ADD, None, 1, 2, 3)]);
    state.process_batch(&[quad(REMOVE, None, 1, 2, 3), quad(ADD, None, 4, 5, 6)]);
    assert_eq!(state.finish(), vec![quad(ADD, None, 1, 2, 3), quad(ADD, None, 4, 5, 6)]);
}

#[test]
fn version_ranges_are_ordered() {
    assert!(DeltaStorageLogVersionRange::try_new(3, 2).is_none());
    let range = DeltaStorageLogVersionRange::try_new(2, 3).unwrap();
    assert_eq!((range.starting_version(), range.ending_version()), (2, 3));
    let same = DeltaStorageLogVersionRange::new_unchecked(5, 5);
    assert_eq!(same.starting_version(), 5);
}

#[test]
fn operation_codes_roundtrip() {
    for op in [
        DeltaStorageLogOperation::ClearDatabase,
        DeltaStorageLogOperation::DropGraph,
        DeltaStorageLogOperation::ClearGraph,
        DeltaStorageLogOperation::CreateGraph,
        DeltaStorageLogOperation::RemoveQuad,
        DeltaStorageLogOperation::InsertQuad,
    ] {
        assert_eq!(DeltaStorageLogOperation::from_stored(op.as_stored()), Some(op));
    }
    assert_eq!(DeltaStorageLogOperation::InsertQuad.as_stored(), 21);
    assert!(DeltaStorageLogOperation::ClearGraph.is_graph_operation());
    assert!(!DeltaStorageLogOperation::RemoveQuad.is_graph_operation());
    assert_eq!(DeltaStorageLogOperation::from_stored(0), Some(DeltaStorageLogOperation::ClearDatabase));
    assert_eq!(DeltaStorageLogOperation::ClearDatabase.as_stored(), 0);
    assert!(DeltaStorageLogOperation::ClearDatabase.is_global_operation());
    assert!(!DeltaStorageLogOperation::ClearDatabase.is_graph_operation());
    assert!(!DeltaStorageLogOperation::ClearGraph.is_global_operation());
    assert_eq!(DeltaStorageLogOperation::from_stored(1), None);
}

#[test]
fn partition_sorts_rows_into_categories() {
    let rows = [
        RowValidity { operation: 10, graph_valid: true, quad_valid: false },
        RowValidity { operation: 11, graph_valid: false, quad_valid: false },
        RowValidity { operation: 12, graph_valid: true, quad_valid: false },
        RowValidity { operation: 20, graph_valid: false, quad_valid: true },
        RowValidity { operation: 21, graph_valid: true, quad_valid: true },
    ];
    let p = partition_changeset_operations(&rows).unwrap();
    assert_eq!(p.cleared_graphs, vec![0, 1]);
    assert_eq!(p.dropped_named_graphs, vec![0]);
    assert_eq!(p.added_named_graphs, vec![2, 4]);
    assert_eq!(p.removed_quads, vec![3]);
    assert_eq!(p.added_quads, vec![4]);
}

#[test]
fn partition_refuses_bad_rows() {
    let bad_code = [RowValidity { operation: 7, graph_valid: false, quad_valid: true }];
    assert_eq!(partition_changeset_operations(&bad_code).err(), Some(PartitionError::InvalidOperation(7)));
    let missing = [RowValidity { operation: 21, graph_valid: false, quad_valid: false }];
    assert_eq!(partition_changeset_operations(&missing).err(), Some(PartitionError::MissingQuadTerms));
}

#[test]
fn partition_errors_carry_their_messages() {
    assert_eq!(PartitionError::InvalidOperation(-3).to_string(), "Invalid operation: -3");
    assert_eq!(
        PartitionError::MissingQuadTerms.to_string(),
        "Invalid remove quad operation: missing subject, predicate, or object"
    );
}

#[test]
fn ranges_with_the_same_versions_are_equal() {
    let a = DeltaStorageLogVersionRange::try_new(3, 9).unwrap();
    let b = DeltaStorageLogVersionRange::new_unchecked(3, 9);
    assert_eq!(a, b);
    assert_ne!(a, DeltaStorageLogVersionRange::new_unchecked(3, 10));
}

fn file(version: u64, size: i64, lo: u64, hi: u64) -> OperationLogFile {
    OperationLogFile::new(
        version,
        size,
        Some(FileOperationStats { num_records: 10, min_operation: Some(lo), max_operation: Some(hi) }),
    )
}

#[test]
fn large_insertion_only_ranges_are_read_lazily() {
    let big = 60 * 1024 * 1024;
    assert_eq!(choose_changeset_kind(&[file(1, big, 21, 21), file(2, big, 21, 21)]), ChangesetKind::LazyInsertionOnly);
    assert_eq!(choose_changeset_kind(&[file(1, big, 21, 21)]), ChangesetKind::Eager);
    assert_eq!(choose_changeset_kind(&[file(1, big, 20, 21), file(2, big, 21, 21)]), ChangesetKind::Eager);
    assert_eq!(choose_changeset_kind(&[OperationLogFile::new(1, 2 * big, None)]), ChangesetKind::Eager);
}

#[test]
fn encoding_follows_the_graph_column() {
    assert_eq!(encoding_of_graph_column(ColumnType::PlainTerm), Some(StorageEncodingName::PlainTerm));
    assert_eq!(encoding_of_graph_column(ColumnType::Utf8), Some(StorageEncodingName::String));
    assert_eq!(encoding_of_graph_column(ColumnType::Int64), Some(StorageEncodingName::ObjectId));
    assert_eq!(encoding_of_graph_column(ColumnType::Int32), None);
}

#[test]
fn data_frames_are_brought_into_the_storage_encoding() {
    let cols = [ColumnType::PlainTerm, ColumnType::Int64, ColumnType::Utf8];
    assert_eq!(plan_dataframe_encoding(&[ColumnType::Utf8], TargetEncoding::String), EncodingPlan::AlreadyEncoded);
    assert_eq!(plan_dataframe_encoding(&cols, TargetEncoding::ObjectId(ColumnType::Int64)), EncodingPlan::EncodeAsObjectIds);
    assert_eq!(
        plan_dataframe_encoding(&cols, TargetEncoding::PlainTerm),
        EncodingPlan::PerColumn(vec![ColumnConversion::Keep, ColumnConversion::DecodeObjectIds, ColumnConversion::EncodePlainTerm])
    );
    assert_eq!(
        plan_dataframe_encoding(&cols, TargetEncoding::String),
        EncodingPlan::PerColumn(vec![ColumnConversion::EncodeString, ColumnConversion::DecodeThenEncodeString, ColumnConversion::Keep])
    );
}

#[test]
fn index_scans_push_what_they_can() {
    let plain = plan_index_scan(StorageEncodingName::PlainTerm, true);
    assert!(!plain.push_filters && !plain.push_projection && plain.filter_and_project_above);
    let exact = plan_index_scan(StorageEncodingName::ObjectId, true);
    assert!(exact.push_filters && exact.push_projection && !exact.filter_and_project_above);
    let inexact = plan_index_scan(StorageEncodingName::String, false);
    assert!(inexact.push_filters && !inexact.push_projection && inexact.filter_and_project_above);
}

#[test]
fn filters_with_udfs_stay_above_the_scan() {
    assert_eq!(filter_pushdown(&[true, false, true]), Some(vec![false, true, false]));
    assert_eq!(filter_pushdown(&[true, true]), None);
    assert_eq!(filter_pushdown(&[]), None);
}

#[test]
fn write_and_commit_rules() {
    assert!(!should_flush_writer(999_999));
    assert!(should_flush_writer(1_000_000));
    assert_eq!(writer_count(0), 1);
    assert_eq!(writer_count(8), 8);
    assert!(should_checkpoint(10));
    assert!(should_checkpoint(30));
    assert!(!should_checkpoint(0));
    assert!(!should_checkpoint(11));
}

#[test]
fn dictionary_sync_plans() {
    assert_eq!(plan_dictionary_sync(Some(3), Some(3)), Ok(DictionarySync::UpToDate));
    assert_eq!(plan_dictionary_sync(None, None), Ok(DictionarySync::UpToDate));
    assert_eq!(plan_dictionary_sync(Some(3), Some(7)), Ok(DictionarySync::Apply { first: 4, last: 7 }));
    assert_eq!(plan_dictionary_sync(None, Some(2)), Ok(DictionarySync::Apply { first: 1, last: 2 }));
    let err = plan_dictionary_sync(Some(5), Some(2)).unwrap_err();
    assert_eq!(
        err.to_string(),
        "The local dictionary has a higher version than the global dictionary (local: 5, global: 2)."
    );
}

#[test]
fn added_files_are_located_under_the_table() {
    assert_eq!(added_file_url("memory:///dict//", "part-0.parquet"), "memory:///dict/part-0.parquet");
    assert_eq!(added_file_url("s3://b/t", "x.parquet"), "s3://b/t/x.parquet");
}

#[test]
fn a_table_without_a_maximum_age_is_never_reloaded() {
    assert!(!needs_refresh(0, 1_000_000, None));
    assert!(needs_refresh(10, 16, Some(5)));
    assert!(!needs_refresh(10, 15, Some(5)));
    assert!(!needs_refresh(20, 15, Some(0)));
}

#[test]
fn freshness_rules() {
    assert!(is_fresh(10, 5, 0));
    assert!(is_fresh(10, 15, 5));
    assert!(!is_fresh(10, 16, 5));
    assert!(should_replace_table(Some(3), Some(3)));
    assert!(!should_replace_table(Some(2), Some(3)));
    assert!(should_replace_table(Some(0), None));
    assert!(!should_replace_table(None, Some(0)));
}

#[test]
fn dictionary_directory_is_the_md5_of_the_location() {
    assert_eq!(dictionary_dir_name(""), "d41d8cd98f00b204e9800998ecf8427e");
    assert_eq!(dictionary_dir_name("abc"), "900150983cd24fb0d6963f7d28e17f72");
    let path = get_lmdb_path(false, "abc", Some("/work")).unwrap();
    assert_eq!(path.work_dir, "/work");
    assert_eq!(path.dir_name, "900150983cd24fb0d6963f7d28e17f72");
    assert!(get_lmdb_path(true, "abc", Some("/work")).is_none());
    assert!(get_lmdb_path(false, "abc", None).is_none());
}

#[test]
fn term_hash_is_the_md5_of_the_term_fields() {
    let term = LocalDictionaryTerm {
        term_type: 3,
        value: "42".to_string(),
        data_type: Some("dt".to_string()),
        language: None,
    };
    let input: Vec<u8> = vec![3, b'4', b'2', 1, b'd', b't', 0];
    let expected: [u8; 16] = Md5::digest(&input).into();
    assert_eq!(compute_hash(&term), expected);
    assert_eq!(to_hex_lower(&[0x0f, 0xa0]), "0fa0");
}

use rdf_fusion_storage::index::QuadComponent;
use rdf_fusion_storage::planning::check_index_duplicates;

#[test]
fn test_validate_index_success_no_duplicates() {
    assert!(check_index_duplicates(2, 2).is_ok(), "Validation should pass when there are no duplicates");
}

#[test]
fn test_validate_index_fails_with_duplicates() {
    let err = check_index_duplicates(3, 2).unwrap_err();
    assert_eq!(err, "Validation failed: Index contains duplicates. Total: 3, Distinct: 2");
}

#[test]
fn component_column_names() {
    assert_eq!(QuadComponent::GraphName.column_name(), "graph");
    assert_eq!(QuadComponent::Object.column_name(), "object");
}

use rdf_fusion_storage::index::IndexComponents;
use rdf_fusion_storage::planning::{changeset_range_for_scan, choose_best_index_last};

#[test]
fn scans_apply_the_changeset_after_the_index() {
    assert_eq!(
        changeset_range_for_scan(5, 3).unwrap_err(),
        "The target version is older than the index version"
    );
    assert!(changeset_range_for_scan(5, 5).unwrap().is_none());
    let range = changeset_range_for_scan(0, 4).unwrap().unwrap();
    assert_eq!((range.starting_version(), range.ending_version()), (0, 4));
}

#[test]
fn best_index_by_score_prefers_the_last_of_equal_scores() {
    assert_eq!(choose_best_index_last(&[3, 7, 7, 1]), Some(2));
    assert_eq!(choose_best_index_last(&[]), None);
    assert_eq!(choose_best_index_last(&[4]), Some(0));
}

#[test]
fn index_tables_sort_by_their_components() {
    assert_eq!(IndexComponents::POSG().sort_column_names(), vec!["predicate", "object", "subject", "graph"]);
}

use rdf_fusion_storage::index::same_components;
use rdf_fusion_storage::planning::{default_quad_tables, plan_open_storage, OpenAction};

#[test]
fn opening_a_storage() {
    assert_eq!(plan_open_storage(false, false), Ok(OpenAction::Create));
    assert_eq!(plan_open_storage(true, true), Ok(OpenAction::Load));
    assert_eq!(plan_open_storage(true, false), Err("Table already exists.".to_string()));
    let tables = default_quad_tables();
    assert!(same_components(&tables[0], &IndexComponents::GSPO()));
    assert!(same_components(&tables[1], &IndexComponents::GPOS()));
    assert!(same_components(&tables[2], &IndexComponents::GOSP()));
}

use rdf_fusion_storage::partition::{to_operations, PartitionedRows};

#[test]
fn to_operations_rebuilds_the_categories_in_order() {
    let rows = vec![
        graph_op(10, 1),
        quad(21, Some(2), 5, 6, 7),
        quad(20, None, 8, 9, 10),
    ];
    let parts = PartitionedRows {
        cleared_database: vec![],
        cleared_graphs: vec![0],
        dropped_named_graphs: vec![0],
        added_named_graphs: vec![1],
        removed_quads: vec![2],
        added_quads: vec![1],
    };
    let graph_only = |op: i8, g: u64| LogRow { operation: op, graph: Some(g), subject: None, predicate: None, object: None };
    assert_eq!(
        to_operations(&rows, &parts),
        vec![
            graph_only(11, 1),
            graph_only(10, 1),
            graph_only(12, 2),
            quad(20, None, 8, 9, 10),
            quad(21, Some(2), 5, 6, 7),
        ]
    );
}

#[test]
fn to_operations_of_an_empty_changeset_is_empty() {
    let parts = PartitionedRows {
        cleared_database: vec![],
        cleared_graphs: vec![],
        dropped_named_graphs: vec![],
        added_named_graphs: vec![],
        removed_quads: vec![],
        added_quads: vec![],
    };
    assert_eq!(to_operations(&[], &parts), Vec::<LogRow>::new());
}

use rdf_fusion_storage::planning::round_robin_file_groups;

#[test]
fn round_robin_file_groups_spreads_files_and_drops_empty_groups() {
    assert_eq!(
        round_robin_file_groups(7, 3),
        vec![vec![0, 3, 6], vec![1, 4], vec![2, 5]]
    );
    assert_eq!(round_robin_file_groups(2, 4), vec![vec![0], vec![1]]);
    assert_eq!(round_robin_file_groups(0, 4), Vec::<Vec<usize>>::new());
}

use rdf_fusion_storage::planning::{plan_optimize, OptimizePlan};

#[test]
fn plan_optimize_updates_the_stale_tables_from_the_oldest_version() {
    match plan_optimize(&[3, 5, 4], 5).unwrap() {
        OptimizePlan::Update { range, tables } => {
            assert_eq!(range.starting_version(), 3);
            assert_eq!(range.ending_version(), 5);
            assert_eq!(tables, vec![0, 2]);
        }
        other => panic!("unexpected plan {other:?}"),
    }
}

#[test]
fn plan_optimize_up_to_date_and_empty() {
    assert!(matches!(plan_optimize(&[5, 5], 5).unwrap(), OptimizePlan::UpToDate(5)));
    assert!(matches!(plan_optimize(&[], 5).unwrap(), OptimizePlan::NoQuadTables));
}

#[test]
fn plan_optimize_refuses_a_downgrade() {
    assert_eq!(
        plan_optimize(&[7, 9], 5).unwrap_err(),
        "QuadTable is already at version 7. Cannot downgrade to version 5."
    );
}

use rdf_fusion_storage::partition::{extend_changeset, partition_rows};

/// The subjects of the rows that a category lists.
fn subjects(rows: &[LogRow], idx: &[usize]) -> Vec<Option<u64>> {
    idx.iter().map(|&i| rows[i].subject).collect()
}

#[test]
fn test_extend_eager_changeset() {
    // ids: s1 = 1, p1 = 2, o1 = 3, s2 = 4, p2 = 5, o2 = 6
    let rows = vec![quad(ADD, None, 1, 2, 3)];
    let parts = partition_rows(&rows).unwrap();
    let new_ops = vec![quad(REMOVE, None, 1, 2, 3), quad(ADD, None, 4, 5, 6)];
    let (net, extended) = extend_changeset(&rows, &parts, &new_ops).unwrap();
    let removed = subjects(&net, &extended.removed_quads);
    let added = subjects(&net, &extended.added_quads);
    assert!(removed.contains(&Some(1)));
    assert!(added.contains(&Some(4)));
    assert!(!added.contains(&Some(1)));
}

#[test]
fn test_extend_eager_changeset_with_barriers() {
    // ids: g1 = 9, s1 = 1, p1 = 2, o1 = 3, s2 = 4, p2 = 5, o2 = 6
    let rows = vec![quad(ADD, Some(9), 1, 2, 3)];
    let parts = partition_rows(&rows).unwrap();
    let new_ops = vec![graph_op(CLEAR, 9), quad(ADD, Some(9), 4, 5, 6)];
    let (net, extended) = extend_changeset(&rows, &parts, &new_ops).unwrap();
    let added = subjects(&net, &extended.added_quads);
    let cleared: Vec<Option<u64>> = extended.cleared_graphs.iter().map(|&i| net[i].graph).collect();
    assert!(added.contains(&Some(4)));
    assert!(!added.contains(&Some(1)));
    assert!(cleared.contains(&Some(9)));
}

#[test]
fn extend_changeset_of_nothing_is_empty() {
    let parts = partition_rows(&[]).unwrap();
    let (net, extended) = extend_changeset(&[], &parts, &[]).unwrap();
    assert!(net.is_empty());
    assert!(extended.added_quads.is_empty() && extended.cleared_graphs.is_empty());
}

#[test]
fn extend_changeset_refuses_a_quad_insertion_without_terms() {
    let parts = partition_rows(&[]).unwrap();
    let broken = LogRow { operation: ADD, graph: None, subject: Some(1), predicate: None, object: Some(3) };
    assert_eq!(
        extend_changeset(&[], &parts, &[broken]).err(),
        Some(PartitionError::MissingQuadTerms)
    );
}

/// The quads (graph, subject, predicate, object) that a category of a net changeset lists.
fn listed_quads(rows: &[LogRow], idx: &[usize]) -> Vec<(Option<u64>, Option<u64>, Option<u64>, Option<u64>)> {
    idx.iter().map(|&i| (rows[i].graph, rows[i].subject, rows[i].predicate, rows[i].object)).collect()
}

#[test]
fn test_compute_changeset_with_add_changes() {
    // A = (sA, pA, oA) = (1, 2, 3); B = (sB, pB, oB) = (4, 5, 6)
    let rows = net(vec![quad(ADD, None, 1, 2, 3), quad(ADD, None, 4, 5, 6)]);
    let parts = partition_rows(&rows).unwrap();
    let mut added = listed_quads(&rows, &parts.added_quads);
    added.sort();
    assert_eq!(added, vec![(None, Some(1), Some(2), Some(3)), (None, Some(4), Some(5), Some(6))]);
}

#[test]
fn test_compute_changeset_with_duplicate_add() {
    let rows = net(vec![quad(ADD, None, 1, 2, 3), quad(ADD, None, 1, 2, 3)]);
    let parts = partition_rows(&rows).unwrap();
    assert_eq!(listed_quads(&rows, &parts.added_quads), vec![(None, Some(1), Some(2), Some(3))]);
}

#[test]
fn test_compute_changeset_with_add_and_then_remove() {
    let rows = net(vec![quad(ADD, None, 1, 2, 3), quad(REMOVE, None, 1, 2, 3)]);
    let parts = partition_rows(&rows).unwrap();
    assert_eq!(listed_quads(&rows, &parts.removed_quads), vec![(None, Some(1), Some(2), Some(3))]);
    assert!(parts.added_quads.is_empty());
}

const CLEAR_ALL: i8 = 0;

fn clear_all() -> LogRow {
    LogRow { operation: CLEAR_ALL, graph: None, subject: None, predicate: None, object: None }
}

#[test]
fn test_compute_change_log_clear_barrier() {
    // s1 p1 o1 = 1 2 3, s2 p2 o2 = 4 5 6
    let result = net(vec![quad(ADD, None, 1, 2, 3), clear_all(), quad(ADD, None, 4, 5, 6)]);
    assert_eq!(result, vec![clear_all(), quad(ADD, None, 4, 5, 6)]);
}

#[test]
fn test_compute_change_log_clear_all_barrier_graph_ops() {
    // g1 = 1, g2 = 2
    let result = net(vec![graph_op(CREATE, 1), clear_all(), graph_op(CREATE, 2)]);
    assert_eq!(result, vec![clear_all(), graph_op(CREATE, 2)]);
}

#[test]
fn test_compute_change_log_clear_all_as_last_operation() {
    let result = net(vec![graph_op(CREATE, 1), clear_all()]);
    assert_eq!(result, vec![clear_all()]);
}

#[test]
fn only_the_newest_clear_all_is_kept() {
    let result = net(vec![clear_all(), quad(ADD, None, 1, 2, 3), clear_all(), graph_op(DROP, 4)]);
    assert_eq!(result, vec![clear_all(), graph_op(DROP, 4)]);
}

#[test]
fn partition_lists_a_clear_all_and_rebuilds_it_first() {
    let rows = vec![quad(ADD, Some(9), 1, 2, 3), clear_all()];
    let parts = partition_rows(&rows).unwrap();
    assert_eq!(parts.cleared_database, vec![1]);
    let ops = to_operations(&rows, &parts);
    assert_eq!(ops[0], clear_all());
}

#[test]
fn partition_lists_each_added_named_graph_once() {
    let rows = vec![
        quad(ADD, Some(9), 1, 2, 3),
        graph_op(CREATE, 9),
        quad(ADD, Some(8), 4, 5, 6),
        graph_op(CLEAR, 9),
        quad(ADD, None, 7, 8, 9),
    ];
    let parts = partition_rows(&rows).unwrap();
    assert_eq!(parts.added_named_graphs, vec![0, 2]);
    assert_eq!(parts.cleared_graphs, vec![3]);
    assert_eq!(parts.added_quads, vec![0, 2, 4]);
}

#[test]
fn the_net_changeset_lists_a_clear_all_first_then_rows_in_key_order() {
    let clear_all = LogRow { operation: 0, graph: None, subject: None, predicate: None, object: None };
    let newest_first = vec![
        quad(ADD, Some(2), 5, 5, 5),
        graph_op(CREATE, 2),
        quad(REMOVE, None, 9, 1, 1),
        graph_op(DROP, 1),
        quad(ADD, None, 3, 4, 5),
        clear_all,
        quad(ADD, None, 1, 1, 1),
    ];
    let r = compute_net_changeset(&newest_first);
    assert_eq!(
        r,
        vec![
            clear_all,
            quad(ADD, None, 3, 4, 5),
            quad(REMOVE, None, 9, 1, 1),
            graph_op(DROP, 1),
            graph_op(CREATE, 2),
            quad(ADD, Some(2), 5, 5, 5),
        ]
    );
}

#[test]
fn a_clear_all_skips_the_rest_of_its_batch_only() {
    let clear = LogRow { operation: 0, graph: None, subject: None, predicate: None, object: None };
    let mut state = ComputeLogChangesetState::new();
    state.process_batch(&[quad(ADD, None, 7, 7, 7), clear, quad(ADD, None, 1, 1, 1), graph_op(DROP, 3)]);
    state.process_batch(&[quad(REMOVE, None, 2, 2, 2)]);
    assert_eq!(
        state.finish(),
        vec![clear, quad(REMOVE, None, 2, 2, 2), quad(ADD, None, 7, 7, 7)]
    );
}

#[test]
fn the_refresher_reloads_only_when_too_old_and_keeps_the_newest_table() {
    let mut r = TableRefresher::new(None, 10);
    assert!(!r.needs_reload(1_000));
    r.set_max_age(Some(5));
    assert!(!r.needs_reload(15));
    assert!(r.needs_reload(16));
    assert_eq!(r.reload_ended(20, None, Some(3)), RefreshOutcome::Failed);
    assert!(r.needs_reload(16));
    assert_eq!(r.reload_ended(20, Some(Some(2)), Some(3)), RefreshOutcome::KeptCurrent);
    assert!(!r.needs_reload(16));
    assert!(!r.needs_reload(25));
    assert!(r.needs_reload(26));
    assert_eq!(r.reload_ended(30, Some(Some(3)), Some(3)), RefreshOutcome::Replaced);
    assert_eq!(r.reload_ended(31, Some(None), Some(3)), RefreshOutcome::KeptCurrent);
}

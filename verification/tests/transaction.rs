use rdf_fusion_storage::claim::{BackendMetadata, LocalObjectIdError, ObjectIdClaimer, StaticObjectIdClaimer};
use rdf_fusion_storage::term::LocalDictionaryTerm;
use rdf_fusion_storage::transaction::{
    resolve_plain_terms, IdLookup, LocalTransaction, PendingEntry, TermIdMaps, TermLookup,
};

#[derive(Debug, Clone)]
struct FixedClaimer(i64, i64);

impl ObjectIdClaimer for FixedClaimer {
    fn claim_next_range(&self) -> Result<(i64, i64), LocalObjectIdError> {
        Ok((self.0, self.1))
    }
}

fn iri(value: &str) -> LocalDictionaryTerm {
    LocalDictionaryTerm {
        term_type: 0,
        value: value.to_string(),
        data_type: None,
        language: None,
    }
}

fn literal(value: &str, language: &str) -> LocalDictionaryTerm {
    LocalDictionaryTerm {
        term_type: 2,
        value: value.to_string(),
        data_type: Some("http://www.w3.org/1999/02/22-rdf-syntax-ns#langString".to_string()),
        language: Some(language.to_string()),
    }
}

fn row(term: LocalDictionaryTerm, committed_id: Option<i64>) -> Option<TermLookup> {
    Some(TermLookup { term, committed_id })
}

#[test]
fn encode_array_reuses_committed_pending_and_repeated_ids() {
    let mut txn: LocalTransaction<StaticObjectIdClaimer> = LocalTransaction::new(Some((0, 100)), None);
    let rows = vec![
        row(iri("http://a"), None),
        row(iri("http://a"), None),
        row(iri("http://b"), Some(42)),
        None,
        row(literal("hallo", "de"), None),
        row(iri("http://a"), None),
        row(literal("hallo", "en"), None),
    ];
    let encoded = txn.encode_array(&rows).unwrap();
    assert_eq!(
        encoded,
        vec![Some(0), Some(0), Some(42), None, Some(1), Some(0), Some(2)]
    );
    assert_eq!(txn.pending_id_count(), 3);
    assert_eq!(txn.pending_id_of(&iri("http://a")), Some(0));
    assert_eq!(txn.pending_id_of(&iri("http://b")), None);
    assert_eq!(txn.pending_id_of(&literal("hallo", "de")), Some(1));
}

#[test]
fn encode_array_repeat_takes_the_previous_rows_id_over_a_committed_one() {
    let mut txn: LocalTransaction<StaticObjectIdClaimer> = LocalTransaction::new(Some((0, 100)), None);
    let rows = vec![row(iri("http://a"), Some(7)), None, row(iri("http://a"), Some(8))];
    let encoded = txn.encode_array(&rows).unwrap();
    assert_eq!(encoded, vec![Some(7), None, Some(7)]);
    assert_eq!(txn.pending_id_count(), 0);
}

#[test]
fn encode_array_twice_gives_the_same_ids() {
    let mut txn: LocalTransaction<StaticObjectIdClaimer> = LocalTransaction::new(Some((10, 20)), None);
    let rows = vec![row(iri("http://x"), None), row(iri("http://y"), None), row(iri("http://x"), None)];
    let first = txn.encode_array(&rows).unwrap();
    let second = txn.encode_array(&rows).unwrap();
    assert_eq!(first, vec![Some(10), Some(11), Some(10)]);
    assert_eq!(first, second);
    assert_eq!(txn.pending_id_count(), 2);
    assert_eq!(txn.commit(1).claim, Some((12, 20)));
}

#[test]
fn encode_array_without_claimer_fails_when_the_claim_is_used_up() {
    let mut txn: LocalTransaction<StaticObjectIdClaimer> = LocalTransaction::new(Some((3, 4)), None);
    let rows = vec![row(iri("http://x"), None), row(iri("http://y"), None), row(iri("http://z"), None)];
    let result = txn.encode_array(&rows);
    assert!(matches!(result, Err(LocalObjectIdError::ObjectIdClaimer(_))));
    // the ids handed out before the failure (the claim is inclusive) stay pending
    assert_eq!(txn.pending_id_of(&iri("http://x")), Some(3));
    assert_eq!(txn.pending_id_of(&iri("http://y")), Some(4));
    assert_eq!(txn.pending_id_count(), 2);
}

#[test]
fn encode_array_claims_a_new_range_and_abort_restores_it() {
    let mut txn = LocalTransaction::new(None, Some(FixedClaimer(50, 59)));
    let rows = vec![row(iri("http://x"), None), row(iri("http://y"), None)];
    let encoded = txn.encode_array(&rows).unwrap();
    assert_eq!(encoded, vec![Some(50), Some(51)]);
    assert_eq!(txn.abort(), Some((50, 59)));
}

#[test]
fn commit_writes_the_left_claim_and_the_synced_version() {
    let mut txn = LocalTransaction::new(None, Some(FixedClaimer(50, 59)));
    let rows = vec![row(iri("http://x"), None)];
    txn.encode_array(&rows).unwrap();
    let commit = txn.commit(7);
    assert_eq!(commit.synced_version, 7);
    assert_eq!(commit.claim, Some((51, 59)));
    assert_eq!(commit.entries.len(), 1);
    assert_eq!(commit.entries[0].id, 50);
    assert_eq!(commit.entries[0].term, iri("http://x"));

    let mut metadata = BackendMetadata::default();
    commit.write_metadata(&mut metadata);
    assert_eq!(metadata.synced_version.as_deref(), Some("7"));
    assert_eq!(metadata.next_free_id.as_deref(), Some("51"));
    assert_eq!(metadata.last_free_id.as_deref(), Some("59"));
}

#[test]
fn add_global_batch_records_terms_and_moves_the_claim() {
    let mut txn: LocalTransaction<StaticObjectIdClaimer> = LocalTransaction::new(Some((0, 100)), None);
    let batch = vec![
        PendingEntry { id: 5, term: iri("http://a") },
        PendingEntry { id: 9, term: iri("http://b") },
    ];
    txn.add_global_batch(&batch);
    assert_eq!(txn.pending_id_count(), 2);
    let encoded = txn.encode_array(&[row(iri("http://b"), None), row(iri("http://c"), None)]).unwrap();
    // the recorded term keeps its id, the new one comes after the recorded ids
    assert_eq!(encoded, vec![Some(9), Some(10)]);
    let commit = txn.commit(2);
    assert_eq!(commit.claim, Some((11, 100)));
    assert_eq!(commit.entries.len(), 3);
}

#[test]
fn add_global_batch_beyond_the_claim_uses_it_up() {
    let mut txn: LocalTransaction<StaticObjectIdClaimer> = LocalTransaction::new(Some((0, 10)), None);
    txn.add_global_batch(&[PendingEntry { id: 10, term: iri("http://a") }]);
    assert_eq!(txn.abort(), None);
}

#[test]
fn add_global_batch_replaces_the_id_of_a_recorded_term() {
    let mut txn: LocalTransaction<StaticObjectIdClaimer> = LocalTransaction::new(None, None);
    txn.add_global_batch(&[
        PendingEntry { id: 1, term: iri("http://a") },
        PendingEntry { id: 2, term: iri("http://a") },
    ]);
    assert_eq!(txn.pending_id_of(&iri("http://a")), Some(2));
    // both ids stay pending, the term once
    assert_eq!(txn.pending_id_count(), 2);
    let by_id: Vec<(i64, LocalDictionaryTerm)> =
        txn.pending_id_entries().into_iter().map(|e| (e.id, e.term)).collect();
    assert_eq!(by_id, vec![(1, iri("http://a")), (2, iri("http://a"))]);
    assert_eq!(txn.commit(0).entries.len(), 1);
}

fn id_row(id: i64, term: Option<LocalDictionaryTerm>) -> Option<IdLookup> {
    Some(IdLookup { id, term })
}

#[test]
fn resolve_plain_terms_resolves_found_ids_and_repeats() {
    let rows = vec![
        id_row(1, Some(iri("http://a"))),
        id_row(1, None),
        None,
        id_row(2, Some(literal("x", "en"))),
    ];
    let resolved = resolve_plain_terms(&rows).unwrap();
    assert_eq!(
        resolved,
        vec![Some(iri("http://a")), Some(iri("http://a")), None, Some(literal("x", "en"))]
    );
}

#[test]
fn resolve_plain_terms_fails_on_the_first_missing_id() {
    let rows = vec![id_row(1, Some(iri("http://a"))), id_row(7, None), id_row(8, None)];
    let err = resolve_plain_terms(&rows).unwrap_err();
    assert_eq!(err, LocalObjectIdError::NotFound(7));
    assert_eq!(err.to_string(), "Object ID 7 not found");
}

#[test]
fn resolve_plain_terms_of_nulls_only() {
    let rows: Vec<Option<IdLookup>> = vec![None, None];
    assert_eq!(resolve_plain_terms(&rows).unwrap(), vec![None, None]);
}

#[test]
fn term_id_maps_list_ids_in_order_and_later_entries_replace_earlier_ones() {
    let mut maps = TermIdMaps::new();
    maps.insert(5, &iri("http://example.org/five"));
    maps.insert(2, &iri("http://example.org/two"));
    maps.insert(9, &iri("http://example.org/nine"));
    maps.insert(2, &iri("http://example.org/two-again"));
    let ids: Vec<i64> = maps.entries_by_id().iter().map(|e| e.id).collect();
    assert_eq!(ids, vec![2, 5, 9]);
    assert_eq!(maps.id_count(), 3);
    assert_eq!(maps.term_of(2), Some(iri("http://example.org/two-again")));
    assert_eq!(maps.term_of(3), None);
    assert_eq!(maps.id_of(&iri("http://example.org/two")), Some(2));
}

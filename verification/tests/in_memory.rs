use rdf_fusion_storage::claim::{BackendMetadata, LocalObjectIdError, StaticObjectIdClaimer};
use rdf_fusion_storage::in_memory::InMemoryBackend;
use rdf_fusion_storage::term::LocalDictionaryTerm;

fn iri(value: &str) -> LocalDictionaryTerm {
    LocalDictionaryTerm { term_type: 0, value: value.to_string(), data_type: None, language: None }
}

fn encode(backend: &InMemoryBackend, txn: &mut rdf_fusion_storage::transaction::LocalTransaction<StaticObjectIdClaimer>, terms: &[Option<LocalDictionaryTerm>]) -> Vec<Option<i64>> {
    let rows = backend.lookup_rows(terms);
    txn.encode_array(&rows).unwrap()
}

#[test]
fn empty_dictionary_holds_nothing() {
    let backend = InMemoryBackend::new();
    assert!(backend.is_empty());
    assert_eq!(backend.len(), 0);
    assert_eq!(backend.get_id_by_term(&iri("http://a")), None);
    assert_eq!(backend.resolve_plain_terms(&[None]).unwrap(), vec![None]);
}

#[test]
fn committed_terms_are_found_and_resolved() {
    let mut backend = InMemoryBackend::new();
    let mut txn = backend.transaction(Some(StaticObjectIdClaimer)).unwrap();
    let terms = vec![Some(iri("http://a")), Some(iri("http://b")), None, Some(iri("http://a"))];
    let ids = encode(&backend, &mut txn, &terms);
    assert_eq!(ids, vec![Some(0), Some(1), None, Some(0)]);
    backend.commit_transaction(txn, 1);

    assert_eq!(backend.len(), 2);
    assert_eq!(backend.get_id_by_term(&iri("http://a")), Some(0));
    assert_eq!(backend.get_id_by_term(&iri("http://b")), Some(1));
    assert_eq!(
        backend.resolve_plain_terms(&[Some(1), Some(0), None, Some(0)]).unwrap(),
        vec![Some(iri("http://b")), Some(iri("http://a")), None, Some(iri("http://a"))]
    );
    let metadata = backend.metadata();
    assert_eq!(metadata.synced_version.as_deref(), Some("1"));
    assert_eq!(metadata.next_free_id.as_deref(), Some("2"));
    assert_eq!(metadata.last_free_id.as_deref(), Some(i64::MAX.to_string().as_str()));
}

#[test]
fn a_second_transaction_reuses_committed_ids_and_continues_the_claim() {
    let mut backend = InMemoryBackend::new();
    let mut txn = backend.transaction(Some(StaticObjectIdClaimer)).unwrap();
    encode(&backend, &mut txn, &[Some(iri("http://a"))]);
    backend.commit_transaction(txn, 1);

    let mut txn = backend.transaction(Some(StaticObjectIdClaimer)).unwrap();
    let ids = encode(&backend, &mut txn, &[Some(iri("http://c")), Some(iri("http://a"))]);
    assert_eq!(ids, vec![Some(1), Some(0)]);
    assert_eq!(txn.pending_id_count(), 1);
    backend.commit_transaction(txn, 2);
    assert_eq!(backend.len(), 2);
    assert_eq!(backend.resolve_plain_terms(&[Some(1)]).unwrap(), vec![Some(iri("http://c"))]);
}

#[test]
fn in_memory_resolve_of_an_unknown_id_fails() {
    let backend = InMemoryBackend::new();
    assert_eq!(
        backend.resolve_plain_terms(&[None, Some(5)]).unwrap_err(),
        LocalObjectIdError::NotFound(5)
    );
}

#[test]
fn abort_writes_back_the_claim_to_restore() {
    let mut backend = InMemoryBackend::new();
    let mut txn = backend.transaction(Some(StaticObjectIdClaimer)).unwrap();
    encode(&backend, &mut txn, &[Some(iri("http://a"))]);
    backend.abort_transaction(txn);
    assert!(backend.is_empty());
    let metadata = backend.metadata();
    assert_eq!(metadata.next_free_id.as_deref(), Some("0"));
    assert_eq!(metadata.synced_version, None);

    // the next transaction hands out the same ids again
    let mut txn = backend.transaction(Some(StaticObjectIdClaimer)).unwrap();
    assert_eq!(encode(&backend, &mut txn, &[Some(iri("http://b"))]), vec![Some(0)]);
}

#[test]
fn a_corrupt_claim_refuses_transactions() {
    let mut backend = InMemoryBackend::new();
    backend.set_metadata(BackendMetadata {
        synced_version: None,
        next_free_id: Some("5".to_string()),
        last_free_id: None,
    });
    assert!(matches!(
        backend.transaction(Some(StaticObjectIdClaimer)),
        Err(LocalObjectIdError::Corruption(_))
    ));
}

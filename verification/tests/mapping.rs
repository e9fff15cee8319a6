use rdf_fusion_storage::mapping::{
    InternedStr, MappingError, ObjectIdInMemoryMapping, StringInterner, CHUNK_SIZE,
};
use rdf_fusion_storage::term::LocalDictionaryTerm;

fn term(term_type: i8, value: &str, data_type: Option<&str>, language: Option<&str>) -> LocalDictionaryTerm {
    LocalDictionaryTerm {
        term_type,
        value: value.to_string(),
        data_type: data_type.map(|s| s.to_string()),
        language: language.map(|s| s.to_string()),
    }
}

fn create_test_array() -> Vec<Option<LocalDictionaryTerm>> {
    vec![
        Some(term(1, "http://example.org/Alice", None, None)),
        Some(term(2, "b0", None, None)),
        Some(term(3, "Hello", None, Some("en"))),
        Some(term(3, "42", Some("http://www.w3.org/2001/XMLSchema#integer"), None)),
    ]
}

#[test]
fn test_interned_str_size() {
    assert_eq!(std::mem::size_of::<InternedStr>(), 16);
}

#[test]
fn test_encode_return_correct_type() {
    let mut mapping = ObjectIdInMemoryMapping::empty();
    let input_array = create_test_array();
    let encoded_ids = mapping.encode_array(&input_array);
    let resolved = mapping.resolve_plain_terms(&encoded_ids).unwrap();
    assert_eq!(resolved.len(), input_array.len());
    assert!(resolved.iter().all(|t| t.is_some()));
}

#[test]
fn test_encode_and_resolve_terms() {
    let mut mapping = ObjectIdInMemoryMapping::empty();
    let input_array = create_test_array();
    let encoded_ids = mapping.encode_array(&input_array);
    let resolved = mapping.resolve_plain_terms(&encoded_ids).unwrap();
    assert_eq!(input_array, resolved);
}

#[test]
fn test_encode_twice_get_same_result() {
    let mut mapping = ObjectIdInMemoryMapping::empty();
    let input_array = create_test_array();
    let encoded_ids1 = mapping.encode_array(&input_array);
    let encoded_ids2 = mapping.encode_array(&input_array);
    assert_eq!(encoded_ids1, encoded_ids2);
}

#[test]
fn test_add_batch_contiguous_success() {
    let mut mapping = ObjectIdInMemoryMapping::empty();
    let ids = vec![0, 1];
    let terms = vec![
        term(1, "http://example.org/A", None, None),
        term(1, "http://example.org/B", None, None),
    ];
    let result = mapping.add_batch(&ids, &terms);
    assert!(result.is_ok(), "Failed to add valid contiguous batch");
    assert_eq!(mapping.next_id(), 2, "next_id was not incremented correctly");
}

#[test]
fn test_add_batch_rejects_non_contiguous_ids() {
    let mut mapping = ObjectIdInMemoryMapping::empty();
    let ids = vec![0, 2];
    let terms = vec![
        term(1, "http://example.org/A", None, None),
        term(1, "http://example.org/C", None, None),
    ];
    let result = mapping.add_batch(&ids, &terms);
    assert!(result.is_err(), "add_batch should have failed on non-contiguous IDs");
    let err_msg = result.unwrap_err().to_string();
    assert!(
        err_msg.contains("Expected 1, found 2"),
        "Error message did not contain expected validation details: {err_msg}"
    );
}

#[test]
fn encoding_gives_dense_ids_in_order_of_first_sight() {
    let mut mapping = ObjectIdInMemoryMapping::empty();
    let a = term(1, "http://example.org/a-rather-long-iri", None, None);
    let b = term(2, "short", None, None);
    let ids = mapping.encode_array(&[Some(a.clone()), None, Some(b.clone()), Some(a.clone())]);
    assert_eq!(ids, vec![Some(0), None, Some(1), Some(0)]);
    assert_eq!(mapping.next_id(), 2);
    assert_eq!(mapping.get_id_by_term(&a), Some(0));
    assert_eq!(mapping.get_id_by_term(&b), Some(1));
    assert_eq!(mapping.get_id_by_term(&term(1, "short", None, None)), None);
    assert_eq!(mapping.get_id_by_term(&term(1, "never-seen-before-long-value", None, None)), None);
}

#[test]
fn terms_differing_in_one_part_get_different_ids() {
    let mut mapping = ObjectIdInMemoryMapping::empty();
    let ids = mapping.encode_array(&[
        Some(term(3, "1", Some("http://www.w3.org/2001/XMLSchema#integer"), None)),
        Some(term(3, "1", Some("http://www.w3.org/2001/XMLSchema#decimal"), None)),
        Some(term(3, "1", None, Some("en"))),
        Some(term(3, "1", None, None)),
        Some(term(2, "1", None, None)),
    ]);
    assert_eq!(ids, vec![Some(0), Some(1), Some(2), Some(3), Some(4)]);
}

#[test]
fn resolving_an_unknown_id_fails() {
    let mut mapping = ObjectIdInMemoryMapping::empty();
    mapping.encode_array(&create_test_array());
    let err = mapping.resolve_plain_terms(&[Some(1), Some(4), Some(-1)]).unwrap_err();
    assert_eq!(err, MappingError::NotFound(4));
    assert_eq!(err.to_string(), "Object ID 4 not found in dictionary");
    assert_eq!(mapping.resolve_plain_terms(&[None]).unwrap(), vec![None]);
}

#[test]
fn add_batch_then_encode_reuses_loaded_ids() {
    let mut mapping = ObjectIdInMemoryMapping::empty();
    let loaded = vec![term(1, "http://example.org/loaded-term", None, None), term(0, "x", None, None)];
    mapping.add_batch(&[0, 1], &loaded).unwrap();
    let ids = mapping.encode_array(&[Some(loaded[1].clone()), Some(term(0, "y", None, None))]);
    assert_eq!(ids, vec![Some(1), Some(2)]);
}

#[test]
fn add_batch_keeps_rows_before_the_gap() {
    let mut mapping = ObjectIdInMemoryMapping::empty();
    let terms = vec![term(1, "a", None, None), term(1, "b", None, None), term(1, "c", None, None)];
    let err = mapping.add_batch(&[0, 1, 5], &terms).unwrap_err();
    assert_eq!(err, MappingError::NonContiguous { expected: 2, found: 5 });
    assert_eq!(mapping.next_id(), 2);
}

#[test]
fn read_batches_since_id_chunks_the_terms() {
    let mut mapping = ObjectIdInMemoryMapping::empty();
    let n = CHUNK_SIZE + 3;
    let input: Vec<Option<LocalDictionaryTerm>> =
        (0..n).map(|i| Some(term(1, &format!("t{i}"), None, None))).collect();
    mapping.encode_array(&input);
    let batches = mapping.read_batches_since_id(2);
    assert_eq!(batches.len(), 2);
    assert_eq!(batches[0].ids.len(), CHUNK_SIZE);
    assert_eq!(batches[0].ids[0], 2);
    assert_eq!(batches[0].terms[0], term(1, "t2", None, None));
    assert_eq!(batches[1].ids, vec![(CHUNK_SIZE + 2) as i64]);
    assert_eq!(batches[1].terms, vec![term(1, &format!("t{}", CHUNK_SIZE + 2), None, None)]);
    assert!(mapping.read_batches_since_id(n as i64).is_empty());
}

#[test]
fn interner_inlines_short_strings_and_numbers_long_ones() {
    let mut interner = StringInterner::new();
    let short = interner.get_or_intern("fourteen-bytes");
    assert!(matches!(short, InternedStr::Small { len: 14, .. }));
    let long1 = interner.get_or_intern("fifteen-bytes!!");
    let long2 = interner.get_or_intern("another long string");
    assert_eq!(long1, InternedStr::Interned(0));
    assert_eq!(long2, InternedStr::Interned(1));
    assert_eq!(interner.get_or_intern("fifteen-bytes!!"), InternedStr::Interned(0));
    assert_eq!(interner.get_id("another long string"), Some(InternedStr::Interned(1)));
    assert_eq!(interner.get_id("not interned yet!"), None);
    assert_eq!(interner.resolve(&long2), Some("another long string"));
    assert_eq!(interner.resolve(&short), Some("fourteen-bytes"));
    assert_eq!(interner.resolve(&InternedStr::Interned(9)), None);
}

fn named_node(iri: &str) -> Option<LocalDictionaryTerm> {
    Some(term(0, iri, None, None))
}

#[test]
fn test_encode_decode_roundtrip() {
    let mut mapping = ObjectIdInMemoryMapping::empty();
    let original = vec![named_node("http://example.org/a"), named_node("http://example.org/b"), None];
    let encoded = mapping.encode_array(&original);
    let decoded = mapping.resolve_plain_terms(&encoded).unwrap();
    assert_eq!(decoded.len(), 3);
    for (o, d) in original.iter().zip(decoded.iter()) {
        assert_eq!(o, d);
    }
}

#[test]
fn test_encode_handles_null() {
    let mut mapping = ObjectIdInMemoryMapping::empty();
    let original = vec![named_node("http://example.org/a"), named_node("http://example.org/b"), None];
    let encoded = mapping.encode_array(&original);
    assert_eq!(encoded.len(), 3);
    assert!(encoded[2].is_none());
}

#[test]
fn test_encode_chooses_sensible_ids() {
    let mut mapping = ObjectIdInMemoryMapping::empty();
    let original = vec![named_node("http://example.org/a"), named_node("http://example.org/b")];
    let encoded = mapping.encode_array(&original);
    assert_eq!(encoded, vec![Some(0), Some(1)]);
}

#[test]
fn test_encode_reuses_ids() {
    let mut mapping = ObjectIdInMemoryMapping::empty();
    let original = vec![named_node("http://example.org/a"), named_node("http://example.org/b")];
    let encoded1 = mapping.encode_array(&original);
    let encoded2 = mapping.encode_array(&original);
    assert_eq!(encoded1, encoded2);
}

#[test]
fn encoding_again_gives_no_new_ids() {
    let mut mapping = ObjectIdInMemoryMapping::empty();
    let input = create_test_array();
    let first = mapping.encode_array(&input);
    let after_first = mapping.next_id();
    let second = mapping.encode_array(&input);
    assert_eq!(first, second);
    assert_eq!(mapping.next_id(), after_first);
    assert_eq!(after_first, 4);
}

#[test]
fn encoding_after_known_terms_continues_the_numbering() {
    let mut mapping = ObjectIdInMemoryMapping::empty();
    mapping.encode_array(&[Some(term(1, "first", None, None))]);
    let ids = mapping.encode_array(&[
        Some(term(1, "second", None, None)),
        Some(term(1, "first", None, None)),
        Some(term(1, "second", None, None)),
        Some(term(1, "third", None, None)),
    ]);
    assert_eq!(ids, vec![Some(1), Some(0), Some(1), Some(2)]);
    assert_eq!(mapping.next_id(), 3);
}

#[test]
fn a_term_loaded_twice_keeps_the_id_of_its_last_row() {
    let mut mapping = ObjectIdInMemoryMapping::empty();
    let t = term(1, "http://example.org/loaded-twice", None, None);
    let other = term(0, "other", None, None);
    mapping.add_batch(&[0, 1, 2], &[t.clone(), other.clone(), t.clone()]).unwrap();
    assert_eq!(mapping.get_id_by_term(&t), Some(2));
    assert_eq!(mapping.get_id_by_term(&other), Some(1));
    assert_eq!(mapping.next_id(), 3);
    assert_eq!(mapping.encode_array(&[Some(t.clone())]), vec![Some(2)]);
}

use rdf_fusion_storage::term::{LocalDictionaryTerm, RedbTerm};
use std::cmp::Ordering;
use std::sync::Arc;

#[test]
fn test_redb_term_serialization_roundtrip() {
    let cases = [
        RedbTerm {
            term_type: 0,
            value: "http://example.org/subject",
            data_type: None,
            language: None,
        },
        RedbTerm {
            term_type: 1,
            value: "hello world",
            data_type: None,
            language: None,
        },
        RedbTerm {
            term_type: 1,
            value: "12345",
            data_type: Some("http://www.w3.org/2001/XMLSchema#integer"),
            language: None,
        },
        RedbTerm {
            term_type: 1,
            value: "bonjour",
            data_type: None,
            language: Some("fr"),
        },
        RedbTerm {
            term_type: 1,
            value: "custom",
            data_type: Some("http://example.org/datatype"),
            language: Some("en-US"),
        },
        RedbTerm {
            term_type: 0,
            value: "",
            data_type: Some(""),
            language: Some(""),
        },
        RedbTerm {
            term_type: 2,
            value: "🦀 Unicode: ñoño 🚀",
            data_type: Some("http://example.org/dt#ümlaut"),
            language: Some("es-ES"),
        },
    ];

    for source_term in cases {
        let bytes = RedbTerm::as_bytes(&source_term);
        let deserialized = RedbTerm::from_bytes(&bytes);

        assert_eq!(source_term, deserialized);
        assert_eq!(source_term.term_type, deserialized.term_type);
        assert_eq!(source_term.value, deserialized.value);
        assert_eq!(source_term.data_type, deserialized.data_type);
        assert_eq!(source_term.language, deserialized.language);
    }
}

#[test]
fn test_redb_term_zero_copy_deserialization() {
    let source_term = RedbTerm {
        term_type: 1,
        value: "borrowed string slice",
        data_type: Some("http://www.w3.org/2001/XMLSchema#string"),
        language: Some("en"),
    };

    let bytes = RedbTerm::as_bytes(&source_term);
    let deserialized = RedbTerm::from_bytes(&bytes);

    // Verify pointers into the `bytes` buffer for zero-copy guarantee
    let buffer_start = bytes.as_ptr() as usize;
    let buffer_end = buffer_start + bytes.len();

    let val_ptr = deserialized.value.as_ptr() as usize;
    assert!(
        val_ptr >= buffer_start && val_ptr + deserialized.value.len() <= buffer_end
    );

    let dt = deserialized.data_type.unwrap();
    let dt_ptr = dt.as_ptr() as usize;
    assert!(dt_ptr >= buffer_start && dt_ptr + dt.len() <= buffer_end);

    let lang = deserialized.language.unwrap();
    let lang_ptr = lang.as_ptr() as usize;
    assert!(lang_ptr >= buffer_start && lang_ptr + lang.len() <= buffer_end);
}

#[test]
fn test_redb_term_key_compare() {
    let term_a = RedbTerm {
        term_type: 0,
        value: "http://example.org/a",
        data_type: None,
        language: None,
    };
    let term_b = RedbTerm {
        term_type: 0,
        value: "http://example.org/b",
        data_type: None,
        language: None,
    };

    let bytes_a = RedbTerm::as_bytes(&term_a);
    let bytes_b = RedbTerm::as_bytes(&term_b);

    assert_eq!(RedbTerm::compare(&bytes_a, &bytes_b), term_a.cmp(&term_b));
    assert_eq!(RedbTerm::compare(&bytes_a, &bytes_a), Ordering::Equal);
    assert_eq!(RedbTerm::compare(&bytes_b, &bytes_a), term_b.cmp(&term_a));
}

#[test]
fn test_redb_term_equivalent() {
    let redb_term = RedbTerm {
        term_type: 1,
        value: "test",
        data_type: Some("http://example.org/dt"),
        language: Some("en"),
    };

    let owned_term = redb_term.as_local_dictionary_term();
    let arc_term = Arc::new(owned_term.clone());

    assert!(redb_term.equivalent(&owned_term));
    assert!(redb_term.equivalent(&arc_term));

    let different_term = LocalDictionaryTerm {
        term_type: 1,
        value: "different".to_owned(),
        data_type: Some("http://example.org/dt".to_owned()),
        language: Some("en".to_owned()),
    };
    assert!(!redb_term.equivalent(&different_term));
}

#[test]
fn test_redb_term_key_compare_edge_cases() {
    // Helper to check both forward and reverse comparisons match the struct's Ord
    let assert_cmp = |a: &RedbTerm, b: &RedbTerm| {
        let bytes_a = RedbTerm::as_bytes(a);
        let bytes_b = RedbTerm::as_bytes(b);

        assert_eq!(
            RedbTerm::compare(&bytes_a, &bytes_b),
            a.cmp(b),
            "\nForward comparison failed.\nA: {a:?}\nB: {b:?}",
        );

        assert_eq!(
            RedbTerm::compare(&bytes_b, &bytes_a),
            b.cmp(a),
            "\nReverse comparison failed.\nA: {a:?}\nB: {b:?}",
        );
    };

    // 1. Differing term_types (should short-circuit early)
    assert_cmp(
        &RedbTerm {
            term_type: 0,
            value: "apple",
            data_type: None,
            language: None,
        },
        &RedbTerm {
            term_type: 1,
            value: "apple",
            data_type: None,
            language: None,
        },
    );

    // 2. Differing values, same term_type
    assert_cmp(
        &RedbTerm {
            term_type: 1,
            value: "apple",
            data_type: None,
            language: None,
        },
        &RedbTerm {
            term_type: 1,
            value: "banana",
            data_type: None,
            language: None,
        },
    );

    // 3. Prefix matches
    assert_cmp(
        &RedbTerm {
            term_type: 1,
            value: "banan",
            data_type: None,
            language: None,
        },
        &RedbTerm {
            term_type: 1,
            value: "banana",
            data_type: None,
            language: None,
        },
    );

    // 4. Unicode strings
    assert_cmp(
        &RedbTerm {
            term_type: 1,
            value: "äpple",
            data_type: None,
            language: None,
        },
        &RedbTerm {
            term_type: 1,
            value: "apple",
            data_type: None,
            language: None,
        },
    );
    assert_cmp(
        &RedbTerm {
            term_type: 1,
            value: "🦀",
            data_type: None,
            language: None,
        },
        &RedbTerm {
            term_type: 1,
            value: "🚀",
            data_type: None,
            language: None,
        },
    );

    // 5. None vs Some
    assert_cmp(
        &RedbTerm {
            term_type: 2,
            value: "test",
            data_type: None,
            language: None,
        },
        &RedbTerm {
            term_type: 2,
            value: "test",
            data_type: Some("dt_a"),
            language: None,
        },
    );

    // 6. Differing Option values
    assert_cmp(
        &RedbTerm {
            term_type: 2,
            value: "test",
            data_type: Some("dt_a"),
            language: None,
        },
        &RedbTerm {
            term_type: 2,
            value: "test",
            data_type: Some("dt_b"),
            language: None,
        },
    );

    // 7. Language differences
    assert_cmp(
        &RedbTerm {
            term_type: 2,
            value: "test",
            data_type: Some("dt"),
            language: Some("en"),
        },
        &RedbTerm {
            term_type: 2,
            value: "test",
            data_type: Some("dt"),
            language: Some("es"),
        },
    );

    // 8. Empty strings vs None
    assert_cmp(
        &RedbTerm {
            term_type: 3,
            value: "",
            data_type: None,
            language: None,
        },
        &RedbTerm {
            term_type: 3,
            value: "",
            data_type: Some(""),
            language: None,
        },
    );
}

#[test]
fn decoding_checks_the_encoding() {
    let term = RedbTerm { term_type: 2, value: "v", data_type: Some("dt"), language: None };
    let bytes = RedbTerm::as_bytes(&term);
    assert!(RedbTerm::in_bounds(&bytes));
    assert_eq!(RedbTerm::try_from_bytes(&bytes), Some(term));
    assert!(!RedbTerm::in_bounds(&bytes[..bytes.len() - 1]));
    assert_eq!(RedbTerm::try_from_bytes(&bytes[..12]), None);
    let mut bad = bytes.clone();
    bad[13] = 0xff;
    assert!(RedbTerm::in_bounds(&bad));
    assert_eq!(RedbTerm::try_from_bytes(&bad), None);
}

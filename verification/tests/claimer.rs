use rdf_fusion_storage::claim::LocalObjectIdError;
use rdf_fusion_storage::claimer::{
    parse_claim_content, trim_quotes, ClaimAction, ClaimAttempt, ClaimFilePut, ClaimFileRead, ClaimPutMode,
    ObjectIdClaimerPutMode, MAX_CLAIM_RETRIES,
};

/// A claim file in memory, with a version that changes on every write.
struct MemoryFile {
    content: Option<String>,
    version: u64,
}

impl MemoryFile {
    fn read(&self) -> ClaimFileRead {
        match &self.content {
            None => ClaimFileRead::NotFound,
            Some(c) => ClaimFileRead::Found {
                content: c.as_bytes().to_vec(),
                e_tag: Some(format!("\"v{}\"", self.version)),
                version: Some(self.version.to_string()),
            },
        }
    }

    fn put(&mut self, payload: String, mode: ClaimPutMode) -> ClaimFilePut {
        match mode {
            ClaimPutMode::Overwrite => {}
            ClaimPutMode::Create => {
                if self.content.is_some() {
                    return ClaimFilePut::Conflict;
                }
            }
            ClaimPutMode::Update { version, .. } => {
                if version != Some(self.version.to_string()) {
                    return ClaimFilePut::Conflict;
                }
            }
        }
        self.content = Some(payload);
        self.version += 1;
        ClaimFilePut::Written
    }
}

fn claim(file: &mut MemoryFile, size: i64, mode: ObjectIdClaimerPutMode) -> Result<(i64, i64), LocalObjectIdError> {
    let (mut attempt, mut action) = ClaimAttempt::new(size, mode);
    loop {
        action = match action {
            ClaimAction::Read => attempt.on_read(file.read()),
            ClaimAction::Put { payload, mode } => {
                let put = file.put(payload, mode);
                attempt.on_put(put)
            }
            ClaimAction::Finished(result) => return result,
        };
    }
}

fn run_delta_object_id_claimer_test(put_mode: ObjectIdClaimerPutMode) {
    let mut file = MemoryFile { content: None, version: 0 };
    let (start1, limit1) = claim(&mut file, 1000, put_mode).unwrap();
    assert_eq!(start1, 0);
    assert_eq!(limit1, 999);
    let (start2, limit2) = claim(&mut file, 1000, put_mode).unwrap();
    assert_eq!(start2, 1000);
    assert_eq!(limit2, 1999);
    let (start3, limit3) = claim(&mut file, 1000, put_mode).unwrap();
    assert_eq!(start3, 2000);
    assert_eq!(limit3, 2999);
    assert_eq!(file.content.as_deref(), Some("3000"));
}

#[test]
fn test_delta_object_id_claimer() {
    run_delta_object_id_claimer_test(ObjectIdClaimerPutMode::AlwaysOverwrite);
}

#[test]
fn test_delta_object_id_claimer_ensure_version() {
    run_delta_object_id_claimer_test(ObjectIdClaimerPutMode::EnsureVersion);
}

#[test]
fn put_mode_follows_the_version_read() {
    assert_eq!(ObjectIdClaimerPutMode::AlwaysOverwrite.put_mode_for(None), ClaimPutMode::Overwrite);
    assert_eq!(ObjectIdClaimerPutMode::EnsureVersion.put_mode_for(None), ClaimPutMode::Create);
    assert_eq!(
        ObjectIdClaimerPutMode::EnsureVersion.put_mode_for(Some((Some("e".to_string()), None))),
        ClaimPutMode::Update { e_tag: Some("e".to_string()), version: None }
    );
}

#[test]
fn claim_file_content_may_have_white_space_around_it() {
    assert_eq!(parse_claim_content(b" 42\n"), Ok(42));
    assert_eq!(parse_claim_content("\u{a0}-7\t".as_bytes()), Ok(-7));
    assert!(matches!(parse_claim_content(b"4 2"), Err(LocalObjectIdError::ObjectIdClaimer(_))));
    assert!(matches!(parse_claim_content(&[0xff, 0x30]), Err(LocalObjectIdError::ObjectIdClaimer(_))));
}

#[test]
fn conflicts_are_retried_then_given_up() {
    let (mut attempt, action) = ClaimAttempt::new(10, ObjectIdClaimerPutMode::EnsureVersion);
    assert_eq!(action, ClaimAction::Read);
    for round in 0..MAX_CLAIM_RETRIES {
        let put = attempt.on_read(ClaimFileRead::NotFound);
        assert_eq!(put, ClaimAction::Put { payload: "10".to_string(), mode: ClaimPutMode::Create });
        let next = attempt.on_put(ClaimFilePut::Conflict);
        if round + 1 < MAX_CLAIM_RETRIES {
            assert_eq!(next, ClaimAction::Read);
        } else {
            assert_eq!(
                next,
                ClaimAction::Finished(Err(LocalObjectIdError::ObjectIdClaimer(
                    "Exceeded maximum retries (10) for claiming object IDs".to_string()
                )))
            );
        }
    }
}

#[test]
fn read_and_write_failures_end_the_claim() {
    let (mut attempt, _) = ClaimAttempt::new(10, ObjectIdClaimerPutMode::AlwaysOverwrite);
    assert_eq!(
        attempt.on_read(ClaimFileRead::Failed("boom".to_string())),
        ClaimAction::Finished(Err(LocalObjectIdError::ObjectIdClaimer("boom".to_string())))
    );
    let (mut attempt, _) = ClaimAttempt::new(10, ObjectIdClaimerPutMode::AlwaysOverwrite);
    attempt.on_read(ClaimFileRead::NotFound);
    assert!(matches!(
        attempt.on_put(ClaimFilePut::NotSupported),
        ClaimAction::Finished(Err(LocalObjectIdError::ObjectIdClaimer(_)))
    ));
}

#[test]
fn overflowing_claims_fail() {
    let (mut attempt, _) = ClaimAttempt::new(10, ObjectIdClaimerPutMode::AlwaysOverwrite);
    let read = ClaimFileRead::Found {
        content: i64::MAX.to_string().into_bytes(),
        e_tag: None,
        version: None,
    };
    assert!(matches!(
        attempt.on_read(read),
        ClaimAction::Finished(Err(LocalObjectIdError::ObjectIdClaimer(_)))
    ));
}

#[test]
fn claim_file_errors_carry_the_parse_error_texts() {
    let text = |e: Result<i64, LocalObjectIdError>| match e {
        Err(LocalObjectIdError::ObjectIdClaimer(m)) => m,
        other => panic!("unexpected {:?}", other),
    };
    assert_eq!(text(parse_claim_content(b"4 2")), "invalid digit found in string");
    assert_eq!(text(parse_claim_content(b"  ")), "cannot parse integer from empty string");
    assert_eq!(text(parse_claim_content(b"99999999999999999999")), "number too large to fit in target type");
    assert_eq!(text(parse_claim_content(&[0xff, 0x30])), "invalid utf-8 sequence of 1 bytes from index 0");
}

#[test]
fn entity_tags_lose_their_quotes_before_a_versioned_write() {
    assert_eq!(trim_quotes("\"v1\""), "v1");
    assert_eq!(trim_quotes("\"\"x\""), "x");
    assert_eq!(trim_quotes("\"\""), "");
    assert_eq!(trim_quotes("plain"), "plain");
    let (mut attempt, _) = ClaimAttempt::new(5, ObjectIdClaimerPutMode::EnsureVersion);
    let action = attempt.on_read(ClaimFileRead::Found {
        content: b"10".to_vec(),
        e_tag: Some("\"abc\"".to_string()),
        version: Some("3".to_string()),
    });
    assert_eq!(
        action,
        ClaimAction::Put {
            payload: "15".to_string(),
            mode: ClaimPutMode::Update { e_tag: Some("abc".to_string()), version: Some("3".to_string()) },
        }
    );
}

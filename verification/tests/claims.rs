use rdf_fusion_storage::claim::{
    claim_after_global_ids, encode_claim, get_synced_version, read_claimed_object_ids,
    try_load_initial_claim, try_load_initial_claim_in_memory, validate_initial_claim,
    write_claim_in_memory, write_synced_version, BackendMetadata, LocalObjectIdError,
    NextIdResult, ObjectIdClaim, ObjectIdClaimer, StaticObjectIdClaimer,
};

#[derive(Debug, Clone)]
struct FixedClaimer(i64, i64);

impl ObjectIdClaimer for FixedClaimer {
    fn claim_next_range(&self) -> Result<(i64, i64), LocalObjectIdError> {
        Ok((self.0, self.1))
    }
}

#[derive(Debug, Clone)]
struct FailingClaimer;

impl ObjectIdClaimer for FailingClaimer {
    fn claim_next_range(&self) -> Result<(i64, i64), LocalObjectIdError> {
        Err(LocalObjectIdError::Storage("offline".to_string()))
    }
}

#[test]
fn static_claimer_claims_all_non_negative_ids() {
    assert_eq!(StaticObjectIdClaimer.claim_next_range(), Ok((0, i64::MAX)));
}

#[test]
fn acquire_takes_ids_from_the_claim_in_order() {
    let mut claim = ObjectIdClaim::new(Some((5, 8)), Some(StaticObjectIdClaimer));
    let a = claim.acquire_next_id().unwrap();
    let b = claim.acquire_next_id().unwrap();
    assert_eq!(a, NextIdResult { id: 5, newly_claimed: None });
    assert_eq!(b, NextIdResult { id: 6, newly_claimed: None });
    assert_eq!(claim.peek_current_claim(), Some((7, 8)));
}

#[test]
fn acquire_claims_a_new_range_when_the_claim_is_used_up() {
    let mut claim = ObjectIdClaim::new(Some((3, 3)), Some(FixedClaimer(100, 199)));
    // the claim is inclusive: its last id is handed out first
    assert_eq!(claim.acquire_next_id().unwrap(), NextIdResult { id: 3, newly_claimed: None });
    assert_eq!(claim.peek_current_claim(), None);
    let r = claim.acquire_next_id().unwrap();
    assert_eq!(r, NextIdResult { id: 100, newly_claimed: Some((100, 199)) });
    assert_eq!(claim.peek_current_claim(), Some((101, 199)));
}

#[test]
fn acquire_without_claim_uses_the_claimer() {
    let mut claim = ObjectIdClaim::new(None, Some(StaticObjectIdClaimer));
    let r = claim.acquire_next_id().unwrap();
    assert_eq!(r.id, 0);
    assert_eq!(r.newly_claimed, Some((0, i64::MAX)));
    assert_eq!(claim.peek_current_claim(), Some((1, i64::MAX)));
}

#[test]
fn acquire_single_id_range_from_claimer_leaves_no_claim() {
    let mut claim = ObjectIdClaim::new(None, Some(FixedClaimer(7, 7)));
    let r = claim.acquire_next_id().unwrap();
    assert_eq!(r, NextIdResult { id: 7, newly_claimed: Some((7, 7)) });
    assert_eq!(claim.peek_current_claim(), None);
}

#[test]
fn acquire_without_claimer_fails() {
    let mut claim: ObjectIdClaim<StaticObjectIdClaimer> = ObjectIdClaim::new(None, None);
    let err = claim.acquire_next_id().unwrap_err();
    assert!(matches!(err, LocalObjectIdError::ObjectIdClaimer(_)));
    assert_eq!(
        err.to_string(),
        "ObjectIdClaimer is required to claim new ID range but none was configured"
    );
}

#[test]
fn acquire_with_invalid_claim_fails_and_keeps_claim() {
    let mut claim = ObjectIdClaim::new(Some((9, 2)), Some(StaticObjectIdClaimer));
    let err = claim.acquire_next_id().unwrap_err();
    assert_eq!(err.to_string(), "Invalid range in object id claim.");
    assert_eq!(claim.peek_current_claim(), Some((9, 2)));
}

#[test]
fn acquire_with_invalid_range_from_claimer_fails() {
    let mut claim = ObjectIdClaim::new(None, Some(FixedClaimer(10, 5)));
    let err = claim.acquire_next_id().unwrap_err();
    assert_eq!(err.to_string(), "Invalid claim retruned from object id claimer.");
}

#[test]
fn acquire_passes_on_claimer_errors() {
    let mut claim = ObjectIdClaim::new(None, Some(FailingClaimer));
    let err = claim.acquire_next_id().unwrap_err();
    assert_eq!(err, LocalObjectIdError::Storage("offline".to_string()));
    assert_eq!(err.to_string(), "Storage error: offline");
}

#[test]
fn take_and_accept_split_the_acquisition() {
    let mut claim: ObjectIdClaim<StaticObjectIdClaimer> = ObjectIdClaim::new(Some((1, 2)), None);
    assert_eq!(claim.take_from_claim(), Ok(Some(1)));
    assert_eq!(claim.take_from_claim(), Ok(Some(2)));
    assert_eq!(claim.peek_current_claim(), None);
    assert_eq!(claim.take_from_claim(), Ok(None));
    let r = claim.accept_claimed_range((40, 41)).unwrap();
    assert_eq!(r, NextIdResult { id: 40, newly_claimed: Some((40, 41)) });
    assert_eq!(claim.peek_current_claim(), Some((41, 41)));
}

#[test]
fn set_claim_state_replaces_the_claim() {
    let mut claim = ObjectIdClaim::new(Some((1, 5)), Some(StaticObjectIdClaimer));
    claim.set_claim_state(Some((3, 4)));
    assert_eq!(claim.peek_current_claim(), Some((3, 4)));
}

#[test]
fn global_ids_inside_the_claim_move_it_past_them() {
    assert_eq!(claim_after_global_ids(Some((10, 20)), &[3, 12, 7]), Some(Some((13, 20))));
}

#[test]
fn global_ids_reaching_the_end_use_up_the_claim() {
    assert_eq!(claim_after_global_ids(Some((10, 20)), &[20, 4]), Some(None));
    assert_eq!(claim_after_global_ids(Some((10, 20)), &[25]), Some(None));
}

#[test]
fn global_ids_below_the_claim_keep_it() {
    assert_eq!(claim_after_global_ids(Some((10, 20)), &[1, 9]), None);
    assert_eq!(claim_after_global_ids(Some((10, 20)), &[]), None);
    assert_eq!(claim_after_global_ids(None, &[100]), None);
}

#[test]
fn validate_initial_claim_accepts_ordered_bounds() {
    assert_eq!(validate_initial_claim(Some(1), Some(5)), Ok(Some((1, 5))));
    assert_eq!(validate_initial_claim(Some(5), Some(5)), Ok(Some((5, 5))));
    assert_eq!(validate_initial_claim(None, None), Ok(None));
}

#[test]
fn validate_initial_claim_refuses_corrupt_bounds() {
    let err = validate_initial_claim(Some(6), Some(5)).unwrap_err();
    assert_eq!(
        err.to_string(),
        "Invalid object id claim when loading local object id dictionary ([6, 5])"
    );
    let err = validate_initial_claim(Some(6), None).unwrap_err();
    assert_eq!(
        err.to_string(),
        "Only one claim tracking value was found in the local object id mapping."
    );
    assert!(matches!(
        validate_initial_claim(None, Some(1)),
        Err(LocalObjectIdError::Corruption(_))
    ));
}

#[test]
fn stored_claim_loads_back() {
    let (next, last) = encode_claim(Some((-3, 12345))).unwrap();
    assert_eq!(next, "-3");
    assert_eq!(last, "12345");
    assert_eq!(
        try_load_initial_claim(Some(next.as_str()), Some(last.as_str())),
        Ok(Some((-3, 12345)))
    );
    assert_eq!(encode_claim(None), None);
}

#[test]
fn unreadable_claim_bound_is_corruption() {
    assert!(matches!(
        try_load_initial_claim(Some("abc"), Some("3")),
        Err(LocalObjectIdError::Corruption(_))
    ));
    assert!(matches!(
        try_load_initial_claim(Some("1"), Some("99999999999999999999")),
        Err(LocalObjectIdError::Corruption(_))
    ));
    assert_eq!(try_load_initial_claim(Some("+4"), Some("9")), Ok(Some((4, 9))));
}

#[test]
fn metadata_keeps_written_claim_and_version() {
    let mut metadata = BackendMetadata::default();
    write_claim_in_memory(&mut metadata, Some((100, 199)));
    write_synced_version(&mut metadata, 42);
    assert_eq!(metadata.next_free_id.as_deref(), Some("100"));
    assert_eq!(metadata.last_free_id.as_deref(), Some("199"));
    assert_eq!(metadata.synced_version.as_deref(), Some("42"));
    assert_eq!(try_load_initial_claim_in_memory(&metadata), Ok(Some((100, 199))));
    assert_eq!(read_claimed_object_ids(&metadata), Ok(Some((100, 199))));
    assert_eq!(get_synced_version(&metadata), Ok(Some(42)));

    write_claim_in_memory(&mut metadata, None);
    assert_eq!(metadata.next_free_id, None);
    assert_eq!(try_load_initial_claim_in_memory(&metadata), Ok(None));
    assert_eq!(get_synced_version(&metadata), Ok(Some(42)));
}

#[test]
fn snapshot_claim_does_not_check_order() {
    let mut metadata = BackendMetadata::default();
    write_claim_in_memory(&mut metadata, Some((9, 1)));
    assert_eq!(read_claimed_object_ids(&metadata), Ok(Some((9, 1))));
    assert!(matches!(
        try_load_initial_claim_in_memory(&metadata),
        Err(LocalObjectIdError::Corruption(_))
    ));
    metadata.last_free_id = None;
    let err = read_claimed_object_ids(&metadata).unwrap_err();
    assert_eq!(err.to_string(), "Found only one of next and last free id.");
}

#[test]
fn unreadable_synced_version_is_corruption() {
    let mut metadata = BackendMetadata::default();
    assert_eq!(get_synced_version(&metadata), Ok(None));
    metadata.synced_version = Some("-1".to_string());
    assert!(matches!(
        get_synced_version(&metadata),
        Err(LocalObjectIdError::Corruption(_))
    ));
}

#[test]
fn error_messages() {
    assert_eq!(LocalObjectIdError::NotFound(-7).to_string(), "Object ID -7 not found");
    assert_eq!(LocalObjectIdError::Corruption("bad".to_string()).to_string(), "bad");
    assert_eq!(LocalObjectIdError::ObjectIdClaimer("x".to_string()).to_string(), "x");
}

use rdf_fusion_storage::claim::TransactionClaim;

#[test]
fn transaction_claim_restores_the_last_claimed_range_on_abort() {
    let mut txn = TransactionClaim::new(Some((5, 5)), Some(FixedClaimer(100, 109)));
    assert_eq!(txn.acquire_next_id().unwrap(), NextIdResult { id: 5, newly_claimed: None });
    let first = txn.acquire_next_id().unwrap();
    assert_eq!(first, NextIdResult { id: 100, newly_claimed: Some((100, 109)) });
    let second = txn.acquire_next_id().unwrap();
    assert_eq!(second.id, 101);
    assert_eq!(txn.claim_to_commit(), Some((102, 109)));
    assert_eq!(txn.abort(), Some((100, 109)));
    assert_eq!(txn.claim_to_commit(), Some((100, 109)));
}

#[test]
fn transaction_claim_restores_the_initial_claim_on_abort() {
    let mut txn = TransactionClaim::new(Some((10, 20)), Some(StaticObjectIdClaimer));
    txn.acquire_next_id().unwrap();
    txn.acquire_next_id().unwrap();
    assert_eq!(txn.claim_to_commit(), Some((12, 20)));
    assert_eq!(txn.abort(), Some((10, 20)));
}

#[test]
fn transaction_claim_moves_past_global_ids() {
    let mut txn = TransactionClaim::new(Some((10, 20)), Some(StaticObjectIdClaimer));
    txn.add_global_ids(&[15, 3]);
    assert_eq!(txn.claim_to_commit(), Some((16, 20)));
    assert_eq!(txn.abort(), Some((16, 20)));
    txn.add_global_ids(&[1]);
    assert_eq!(txn.claim_to_commit(), Some((16, 20)));
}

#[test]
fn a_single_id_claim_hands_out_that_id_without_a_claimer() {
    let mut claim: ObjectIdClaim<StaticObjectIdClaimer> = ObjectIdClaim::new(Some((5, 5)), None);
    assert_eq!(claim.acquire_next_id(), Ok(NextIdResult { id: 5, newly_claimed: None }));
    assert_eq!(claim.peek_current_claim(), None);
    assert!(matches!(claim.acquire_next_id(), Err(LocalObjectIdError::ObjectIdClaimer(_))));
}

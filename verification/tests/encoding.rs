use rdf_fusion_storage::encoding::{
    EncodeOutcome, EncoderAction, EncoderMachine, EncoderPhase, ForceCommitOutcome,
};
use rdf_fusion_storage::writer::{TxnOutcome, WriterRoute, WriterSchedule};

#[test]
fn writer_routes_requests_by_version() {
    let mut schedule = WriterSchedule::new(5);
    assert_eq!(schedule.route(5), WriterRoute::Active);
    assert_eq!(schedule.route(6), WriterRoute::FutureVersion(6));
    assert_eq!(schedule.route(4), WriterRoute::UnknownTransaction(4));
    schedule.open_transaction();
    assert!(!schedule.after_encode(3, 10));
    assert!(schedule.after_encode(11, 10));
    assert_eq!(schedule.active_delta_version(), 6);
    assert_eq!(schedule.route(5), WriterRoute::AwaitOutcome(5));
    assert!(!schedule.force_commit());
    schedule.open_transaction();
    assert!(schedule.force_commit());
    assert_eq!(schedule.active_delta_version(), 7);
    schedule.sync_active_version(3);
    assert_eq!(schedule.active_delta_version(), 7);
    schedule.sync_active_version(20);
    assert_eq!(schedule.active_delta_version(), 20);
    assert_eq!(schedule.route(20), WriterRoute::Active);
    assert_eq!(schedule.route(6), WriterRoute::AwaitOutcome(6));
    assert_eq!(schedule.route(19), WriterRoute::UnknownTransaction(19));
}

#[test]
fn writer_route_error_messages() {
    assert_eq!(
        WriterRoute::UnknownTransaction(4).error_message(),
        Some("Unknown transaction id: 4".to_string())
    );
    assert_eq!(
        WriterRoute::FutureVersion(9).error_message(),
        Some("Intended delta version 9 is in the future".to_string())
    );
    assert_eq!(WriterRoute::Active.error_message(), None);
}

#[test]
fn encoder_commits_when_the_input_ends() {
    let mut m = EncoderMachine::new(100);
    assert_eq!(m.poll_next(), EncoderAction::AwaitInitialVersion);
    assert_eq!(m.on_initial_version(3), EncoderAction::PullInput);
    assert_eq!(m.on_input(Some(1)), EncoderAction::Encode { batch: 1, txn_id: 3 });
    assert_eq!(m.on_encoded(EncodeOutcome::Buffering { rows: 5 }), EncoderAction::PullInput);
    assert_eq!(m.on_input(Some(2)), EncoderAction::Encode { batch: 2, txn_id: 3 });
    assert_eq!(m.on_encoded(EncodeOutcome::Buffering { rows: 5 }), EncoderAction::PullInput);
    assert_eq!(m.on_input(None), EncoderAction::ForceCommit(3));
    assert_eq!(m.on_force_commit(ForceCommitOutcome::TriggeredCommit), EncoderAction::CommitToDelta);
    let (outcome, next) = m.on_delta_commit(true);
    assert_eq!(outcome, Some(TxnOutcome::Committed));
    assert_eq!(next, EncoderAction::Yield(1));
    assert_eq!(m.poll_next(), EncoderAction::Yield(2));
    assert_eq!(m.poll_next(), EncoderAction::Finished);
    assert_eq!(m.intended_delta_version(), 4);
}

#[test]
fn encoder_commits_at_the_row_limit() {
    let mut m = EncoderMachine::new(8);
    m.poll_next();
    m.on_initial_version(0);
    m.on_input(Some(1));
    assert_eq!(m.on_encoded(EncodeOutcome::Buffering { rows: 8 }), EncoderAction::ForceCommit(0));
}

#[test]
fn encoder_retries_batches_after_a_conflict() {
    let mut m = EncoderMachine::new(100);
    m.poll_next();
    m.on_initial_version(1);
    m.on_input(Some(7));
    assert_eq!(m.on_encoded(EncodeOutcome::TriggeredCommit { rows: 2 }), EncoderAction::CommitToDelta);
    assert_eq!(m.on_delta_commit(false), (None, EncoderAction::SyncDictionary));
    let (outcome, next) = m.on_synced(9);
    assert_eq!(outcome, Some(TxnOutcome::Conflicted));
    assert_eq!(next, EncoderAction::Encode { batch: 7, txn_id: 9 });
    assert_eq!(m.on_encoded(EncodeOutcome::Buffering { rows: 2 }), EncoderAction::PullInput);
    assert_eq!(m.on_input(None), EncoderAction::ForceCommit(9));
    assert_eq!(
        m.on_force_commit(ForceCommitOutcome::Closed(TxnOutcome::Committed)),
        EncoderAction::Yield(7)
    );
    assert_eq!(m.poll_next(), EncoderAction::Finished);
}

#[test]
fn encoder_re_encodes_a_batch_that_missed_a_closed_transaction() {
    let mut m = EncoderMachine::new(100);
    m.poll_next();
    m.on_initial_version(1);
    m.on_input(Some(4));
    assert_eq!(m.on_encoded(EncodeOutcome::Buffering { rows: 1 }), EncoderAction::PullInput);
    m.on_input(Some(5));
    // the transaction was closed (committed by another stream) before batch 5 got in
    assert_eq!(m.on_encoded(EncodeOutcome::Closed(TxnOutcome::Committed)), EncoderAction::Yield(4));
    assert_eq!(m.poll_next(), EncoderAction::Encode { batch: 5, txn_id: 2 });
}

#[test]
fn encoder_conflict_on_encoding_moves_to_the_next_version() {
    let mut m = EncoderMachine::new(100);
    m.poll_next();
    m.on_initial_version(1);
    m.on_input(Some(4));
    assert_eq!(
        m.on_encoded(EncodeOutcome::Closed(TxnOutcome::Conflicted)),
        EncoderAction::Encode { batch: 4, txn_id: 2 }
    );
}

#[test]
fn encoder_ends_without_a_commit_when_the_transaction_holds_no_rows() {
    let mut m = EncoderMachine::new(10);
    m.poll_next();
    assert_eq!(m.current_phase(), EncoderPhase::AwaitingInitialVersion);
    m.on_initial_version(1);
    assert_eq!(m.on_input(Some(7)), EncoderAction::Encode { batch: 7, txn_id: 1 });
    assert_eq!(m.current_phase(), EncoderPhase::AwaitingEncoding);
    assert_eq!(m.on_encoded(EncodeOutcome::Buffering { rows: 0 }), EncoderAction::PullInput);
    assert_eq!(m.on_input(None), EncoderAction::Finished);
    assert_eq!(m.current_phase(), EncoderPhase::Done);
    assert_eq!(m.ready_count(), 0);
}

//! The decisions of the stream that encodes batches of terms into object ids through the
//! shared dictionary writer.
//!
//! Batches go into a transaction of the dictionary; when the transaction is committed, its
//! encoded batches are yielded; when it conflicts, its raw batches are encoded again in the
//! next transaction. The reading, encoding and committing happen outside; [`EncoderMachine`]
//! decides each step. Batches are known to it by ids that the caller gives them.

use crate::writer::TxnOutcome;
use vstd::multiset::Multiset;
use vstd::prelude::*;

verus! {

/// Where the encoding stream stands.
#[derive(Debug, Clone, Copy, PartialEq, Eq, Structural)]
pub enum EncoderPhase {
    /// Waiting for the delta version to encode into.
    AwaitingInitialVersion,
    /// Ready to take a batch or to commit.
    ReadyToProcess,
    /// Waiting for a batch to be encoded.
    AwaitingEncoding,
    /// Waiting for a forced commit.
    AwaitingForceCommit,
    /// Waiting for the transaction to be committed to the delta table.
    AwaitingDictionaryDeltaCommit,
    /// Waiting for the local dictionary to catch up after a conflict.
    AwaitingLocalDictionaryUpdate,
    /// All input is encoded and committed.
    Done,
}

/// What the stream does next.
#[derive(Debug, Clone, Copy, PartialEq, Eq, Structural)]
pub enum EncoderAction {
    /// Yield the encoded form of the batch.
    Yield(u64),
    /// Wait for the delta version to encode into.
    AwaitInitialVersion,
    /// Encode the batch in the transaction of the delta version.
    Encode { batch: u64, txn_id: u64 },
    /// Force the commit of the transaction of the delta version.
    ForceCommit(u64),
    /// Take the next batch of the input.
    PullInput,
    /// Commit the transaction that was handed off to the delta table.
    CommitToDelta,
    /// Bring the local dictionary up to date after a conflict.
    SyncDictionary,
    /// The stream is over.
    Finished,
}

/// What encoding a batch gave.
#[derive(Debug, Clone, Copy, PartialEq, Eq, Structural)]
pub enum EncodeOutcome {
    /// Encoded into the transaction, which keeps buffering.
    Buffering { rows: usize },
    /// Encoded, and the transaction was handed off to be committed.
    TriggeredCommit { rows: usize },
    /// The transaction was already closed with this outcome; the batch was not encoded.
    Closed(TxnOutcome),
}

/// What forcing a commit gave.
#[derive(Debug, Clone, Copy, PartialEq, Eq, Structural)]
pub enum ForceCommitOutcome {
    /// The transaction was handed off to be committed.
    TriggeredCommit,
    /// The transaction was already closed with this outcome.
    Closed(TxnOutcome),
}

/// The state of the encoding stream.
pub struct EncoderMachine {
    /// Raw batches to encode again, front first.
    retry_queue: Vec<u64>,
    /// The raw batches of the active transaction.
    active_raw: Vec<u64>,
    /// The number of rows of each encoded batch of the active transaction.
    active_rows: Vec<usize>,
    /// Encoded batches to yield, front first.
    ready_to_yield: Vec<u64>,
    /// The delta version of the active transaction.
    intended_delta_version: u64,
    /// How many rows a transaction buffers before it is committed.
    max_buffered_rows: usize,
    phase: EncoderPhase,
    is_exhausted: bool,
    /// Every batch taken from the input.
    seen: Ghost<Seq<u64>>,
    /// Every batch yielded.
    yielded: Ghost<Seq<u64>>,
}

/// The sum of a sequence of row counts.
pub open spec fn total_rows(rows: Seq<usize>) -> int
    decreases rows.len(),
{
    if rows.len() == 0 {
        0
    } else {
        total_rows(rows.drop_last()) + rows.last()
    }
}

proof fn lemma_total_rows_nonnegative(rows: Seq<usize>)
    ensures
        total_rows(rows) >= 0,
    decreases rows.len(),
{
    if rows.len() > 0 {
        lemma_total_rows_nonnegative(rows.drop_last());
    }
}

impl EncoderMachine {
    /// Where the stream stands.
    pub closed spec fn phase(&self) -> EncoderPhase {
        self.phase
    }

    /// The delta version of the active transaction.
    pub closed spec fn intended(&self) -> u64 {
        self.intended_delta_version
    }

    /// Whether the input is used up.
    pub closed spec fn exhausted(&self) -> bool {
        self.is_exhausted
    }

    /// Every batch taken from the input.
    pub closed spec fn seen(&self) -> Seq<u64> {
        self.seen@
    }

    /// Every batch yielded.
    pub closed spec fn yielded(&self) -> Seq<u64> {
        self.yielded@
    }

    /// The raw batches to encode again.
    pub closed spec fn retries(&self) -> Seq<u64> {
        self.retry_queue@
    }

    /// The raw batches of the active transaction.
    pub closed spec fn active_batches(&self) -> Seq<u64> {
        self.active_raw@
    }

    /// The row counts of the encoded batches of the active transaction.
    pub closed spec fn active_rows(&self) -> Seq<usize> {
        self.active_rows@
    }

    /// The encoded batches waiting to be yielded.
    pub closed spec fn ready(&self) -> Seq<u64> {
        self.ready_to_yield@
    }

    /// The row limit of a transaction.
    pub closed spec fn row_limit(&self) -> usize {
        self.max_buffered_rows
    }

    /// No batch is lost or doubled: each batch taken from the input is either waiting to be
    /// encoded again, in the active transaction, waiting to be yielded, or yielded. Each
    /// encoded batch of the active transaction has its row count, but the one being encoded.
    pub closed spec fn wf(&self) -> bool {
        &&& self.seen@.to_multiset() == in_flight(self.retry_queue@, self.active_raw@, self.ready_to_yield@, self.yielded@)
        &&& self.phase == EncoderPhase::Done ==> self.is_exhausted && self.retry_queue@.len() == 0
            && total_rows(self.active_rows@) == 0
        &&& if self.phase == EncoderPhase::AwaitingEncoding {
            self.active_rows@.len() + 1 == self.active_raw@.len()
        } else {
            self.active_rows@.len() == self.active_raw@.len()
        }
    }

    /// Starts a stream that buffers up to `max_buffered_rows` rows per transaction; it first
    /// waits for the delta version to encode into.
    pub fn new(max_buffered_rows: usize) -> (r: Self)
        ensures
            r.wf(),
            r.phase() == EncoderPhase::AwaitingInitialVersion,
            r.seen().len() == 0,
            r.yielded().len() == 0,
            r.row_limit() == max_buffered_rows,
            !r.exhausted(),
    {
        let r = EncoderMachine {
            retry_queue: Vec::new(),
            active_raw: Vec::new(),
            active_rows: Vec::new(),
            ready_to_yield: Vec::new(),
            intended_delta_version: 0,
            max_buffered_rows,
            phase: EncoderPhase::AwaitingInitialVersion,
            is_exhausted: false,
            seen: Ghost(Seq::empty()),
            yielded: Ghost(Seq::empty()),
        };
        proof {
            broadcast use vstd::seq_lib::group_to_multiset_ensures;

            assert(r.seen@.to_multiset() =~= in_flight(r.retry_queue@, r.active_raw@, r.ready_to_yield@, r.yielded@));
        }
        r
    }

    /// Where the stream stands.
    pub fn current_phase(&self) -> (r: EncoderPhase)
        ensures
            r == self.phase(),
    {
        self.phase
    }

    /// The number of encoded batches waiting to be yielded.
    pub fn ready_count(&self) -> (r: usize)
        ensures
            r == self.ready().len(),
    {
        self.ready_to_yield.len()
    }

    /// The delta version of the active transaction.
    pub fn intended_delta_version(&self) -> (r: u64)
        ensures
            r == self.intended(),
    {
        self.intended_delta_version
    }

    /// Whether the active transaction is due for a commit: it holds rows, and either the input
    /// is used up or it reached the row limit.
    pub open spec fn force_commit_due(&self) -> bool {
        commit_due(self.exhausted(), self.retries(), self.active_rows(), self.row_limit())
    }

    /// Whether the active transaction should be committed now: it holds rows, and either the
    /// input is used up or it reached the row limit.
    pub fn should_force_commit(&self) -> (r: bool)
        ensures
            r == self.force_commit_due(),
    {
        let mut pending: u128 = 0;
        let mut i: usize = 0;
        while i < self.active_rows.len()
            invariant
                i <= self.active_rows.len(),
                pending == total_rows(self.active_rows@.subrange(0, i as int)),
                pending <= i * (usize::MAX as int),
            decreases self.active_rows.len() - i,
        {
            proof {
                assert(self.active_rows@.subrange(0, i as int + 1).drop_last() =~= self.active_rows@.subrange(0, i as int));
                assert((i + 1) * (usize::MAX as int) == i * (usize::MAX as int) + usize::MAX) by (nonlinear_arith);
                assert(i * (usize::MAX as int) + usize::MAX <= usize::MAX as int * usize::MAX as int + usize::MAX) by (nonlinear_arith)
                    requires i <= usize::MAX;
                assert(usize::MAX as int * usize::MAX as int + usize::MAX < u128::MAX) by (nonlinear_arith)
                    requires usize::MAX <= u64::MAX;
            }
            pending = pending + self.active_rows[i] as u128;
            i = i + 1;
        }
        proof {
            assert(self.active_rows@.subrange(0, self.active_rows@.len() as int) =~= self.active_rows@);
        }
        let is_input_empty = self.is_exhausted && self.retry_queue.len() == 0;
        let reached_row_limit = pending >= self.max_buffered_rows as u128;
        (is_input_empty || reached_row_limit) && pending > 0
    }
}

/// The batches in flight: waiting to be encoded again, in the active transaction, waiting to
/// be yielded, or yielded.
pub open spec fn in_flight(retry: Seq<u64>, raw: Seq<u64>, ready: Seq<u64>, yielded: Seq<u64>) -> Multiset<u64> {
    retry.to_multiset().add(raw.to_multiset()).add(ready.to_multiset()).add(yielded.to_multiset())
}

impl EncoderMachine {
    /// The transaction was committed: its encoded batches wait to be yielded and the next
    /// version is encoded into; the stream is done when no input is left.
    fn commit_succeeded(&mut self)
        requires
            old(self).wf(),
            old(self).phase() != EncoderPhase::AwaitingEncoding,
            old(self).intended() < u64::MAX,
        ensures
            final(self).wf(),
            final(self).ready() == old(self).ready() + old(self).active_batches(),
            out_queue(*final(self)) == out_queue(*old(self)) + old(self).active_batches(),
            final(self).active_batches().len() == 0,
            final(self).active_rows().len() == 0,
            final(self).retries() == old(self).retries(),
            final(self).intended() == old(self).intended() + 1,
            final(self).phase() == (if old(self).exhausted() && old(self).retries().len() == 0 {
                EncoderPhase::Done
            } else {
                EncoderPhase::ReadyToProcess
            }),
            final(self).exhausted() == old(self).exhausted(),
            final(self).seen() == old(self).seen(),
            final(self).yielded() == old(self).yielded(),
            final(self).row_limit() == old(self).row_limit(),
    {
        let ghost r0 = self.ready_to_yield@;
        let ghost a0 = self.active_raw@;
        let mut i: usize = 0;
        while i < self.active_raw.len()
            invariant
                i <= self.active_raw.len(),
                self.active_raw@ == a0,
                self.ready_to_yield@ == r0 + a0.subrange(0, i as int),
                self.retry_queue@ == old(self).retry_queue@,
                self.active_rows@ == old(self).active_rows@,
                self.intended_delta_version == old(self).intended_delta_version,
                self.max_buffered_rows == old(self).max_buffered_rows,
                self.phase == old(self).phase,
                self.is_exhausted == old(self).is_exhausted,
                self.seen == old(self).seen,
                self.yielded == old(self).yielded,
            decreases self.active_raw.len() - i,
        {
            let b = self.active_raw[i];
            self.ready_to_yield.push(b);
            proof {
                assert(r0 + a0.subrange(0, i as int + 1) =~= (r0 + a0.subrange(0, i as int)).push(b));
            }
            i = i + 1;
        }
        self.active_raw.clear();
        self.active_rows.clear();
        self.intended_delta_version = self.intended_delta_version + 1;
        if self.is_exhausted && self.retry_queue.len() == 0 {
            self.phase = EncoderPhase::Done;
        } else {
            self.phase = EncoderPhase::ReadyToProcess;
        }
        proof {
            broadcast use vstd::seq_lib::group_to_multiset_ensures;

            assert(a0.subrange(0, a0.len() as int) =~= a0);
            vstd::seq_lib::lemma_multiset_commutative(r0, a0);
            assert(self.active_raw@.to_multiset() =~= Multiset::empty());
            assert(in_flight(self.retry_queue@, self.active_raw@, self.ready_to_yield@, self.yielded@)
                =~= in_flight(old(self).retry_queue@, a0, r0, self.yielded@));
        }
    }

    /// The transaction conflicted: its raw batches are encoded again, after those already
    /// waiting, in the given version.
    fn conflicted(&mut self, next_version: u64)
        requires
            old(self).wf(),
        ensures
            final(self).wf(),
            final(self).retries() == old(self).retries() + old(self).active_batches(),
            final(self).active_batches().len() == 0,
            final(self).active_rows().len() == 0,
            final(self).ready() == old(self).ready(),
            final(self).intended() == next_version,
            final(self).phase() == EncoderPhase::ReadyToProcess,
            final(self).exhausted() == old(self).exhausted(),
            final(self).seen() == old(self).seen(),
            final(self).yielded() == old(self).yielded(),
            final(self).row_limit() == old(self).row_limit(),
    {
        let ghost q0 = self.retry_queue@;
        let ghost a0 = self.active_raw@;
        let mut i: usize = 0;
        while i < self.active_raw.len()
            invariant
                i <= self.active_raw.len(),
                self.active_raw@ == a0,
                self.retry_queue@ == q0 + a0.subrange(0, i as int),
                self.ready_to_yield@ == old(self).ready_to_yield@,
                self.active_rows@ == old(self).active_rows@,
                self.intended_delta_version == old(self).intended_delta_version,
                self.max_buffered_rows == old(self).max_buffered_rows,
                self.phase == old(self).phase,
                self.is_exhausted == old(self).is_exhausted,
                self.seen == old(self).seen,
                self.yielded == old(self).yielded,
            decreases self.active_raw.len() - i,
        {
            let b = self.active_raw[i];
            self.retry_queue.push(b);
            proof {
                assert(q0 + a0.subrange(0, i as int + 1) =~= (q0 + a0.subrange(0, i as int)).push(b));
            }
            i = i + 1;
        }
        self.active_raw.clear();
        self.active_rows.clear();
        self.intended_delta_version = next_version;
        self.phase = EncoderPhase::ReadyToProcess;
        proof {
            broadcast use vstd::seq_lib::group_to_multiset_ensures;

            assert(a0.subrange(0, a0.len() as int) =~= a0);
            vstd::seq_lib::lemma_multiset_commutative(q0, a0);
            assert(self.active_raw@.to_multiset() =~= Multiset::empty());
            assert(in_flight(self.retry_queue@, self.active_raw@, self.ready_to_yield@, self.yielded@)
                =~= in_flight(q0, a0, self.ready_to_yield@, self.yielded@));
        }
    }
}

/// The raw batches that an action puts into the active transaction: the batch to encode.
pub open spec fn encoded_by(r: EncoderAction) -> Seq<u64> {
    match r {
        EncoderAction::Encode { batch, .. } => seq![batch],
        _ => Seq::empty(),
    }
}

/// The batches yielded so far followed by those waiting to be yielded: what has gone out or
/// is about to, in order.
pub open spec fn out_queue(m: EncoderMachine) -> Seq<u64> {
    m.yielded() + m.ready()
}

/// Whether a transaction holding encoded batches of `rows` rows is due for a commit: it holds
/// rows, and either the input is used up with nothing left to encode again, or it reached
/// the row limit.
pub open spec fn commit_due(exhausted: bool, retries: Seq<u64>, rows: Seq<usize>, limit: usize) -> bool {
    (exhausted && retries.len() == 0 || total_rows(rows) >= limit) && total_rows(rows) > 0
}

/// The step a settled stream takes next: yield the first batch waiting to be yielded; else, by
/// phase, wait for the initial version, encode the first batch waiting to be encoded again,
/// force a commit when one is due, end when the input is used up, or take input.
pub open spec fn next_step(
    ready: Seq<u64>,
    phase: EncoderPhase,
    retries: Seq<u64>,
    intended: u64,
    exhausted: bool,
    rows: Seq<usize>,
    limit: usize,
) -> EncoderAction {
    if ready.len() > 0 {
        EncoderAction::Yield(ready[0])
    } else if phase == EncoderPhase::AwaitingInitialVersion {
        EncoderAction::AwaitInitialVersion
    } else if phase == EncoderPhase::ReadyToProcess {
        if retries.len() > 0 {
            EncoderAction::Encode { batch: retries[0], txn_id: intended }
        } else if commit_due(exhausted, retries, rows, limit) {
            EncoderAction::ForceCommit(intended)
        } else if exhausted {
            EncoderAction::Finished
        } else {
            EncoderAction::PullInput
        }
    } else {
        EncoderAction::Finished
    }
}

/// The phase after a commit: done when the input is used up and nothing is left to encode
/// again.
pub open spec fn phase_after_commit(exhausted: bool, retries: Seq<u64>) -> EncoderPhase {
    if exhausted && retries.len() == 0 {
        EncoderPhase::Done
    } else {
        EncoderPhase::ReadyToProcess
    }
}

/// Whether the stream is between steps, not waiting for outside work.
pub open spec fn is_settled(p: EncoderPhase) -> bool {
    p == EncoderPhase::AwaitingInitialVersion || p == EncoderPhase::ReadyToProcess || p == EncoderPhase::Done
}

impl EncoderMachine {
    /// The next step: yield a batch that waits to be yielded; else, by phase, wait for the
    /// initial version, encode a batch that waits to be encoded again, force a commit when
    /// [`Self::should_force_commit`] says so, take input, or end.
    pub fn poll_next(&mut self) -> (r: EncoderAction)
        requires
            old(self).wf(),
            is_settled(old(self).phase()),
        ensures
            final(self).wf(),
            final(self).seen() == old(self).seen(),
            final(self).intended() == old(self).intended(),
            final(self).exhausted() == old(self).exhausted(),
            final(self).row_limit() == old(self).row_limit(),
            final(self).active_rows() == old(self).active_rows(),
            old(self).phase() != EncoderPhase::AwaitingInitialVersion ==> r != EncoderAction::AwaitInitialVersion,
            old(self).ready().len() > 0 ==> r == EncoderAction::Yield(old(self).ready()[0])
                && final(self).ready() == old(self).ready().drop_first()
                && final(self).yielded() == old(self).yielded().push(old(self).ready()[0])
                && final(self).phase() == old(self).phase(),
            old(self).ready().len() == 0 ==> final(self).yielded() == old(self).yielded() && final(self).ready()
                == old(self).ready(),
            old(self).ready().len() == 0 && old(self).phase() == EncoderPhase::AwaitingInitialVersion
                ==> r == EncoderAction::AwaitInitialVersion && final(self).phase() == old(self).phase(),
            old(self).ready().len() == 0 && old(self).phase() == EncoderPhase::Done ==> r == EncoderAction::Finished,
            old(self).ready().len() == 0 && old(self).phase() == EncoderPhase::ReadyToProcess && old(self).retries().len() > 0
                ==> r == (EncoderAction::Encode { batch: old(self).retries()[0], txn_id: old(self).intended() })
                && final(self).phase() == EncoderPhase::AwaitingEncoding
                && final(self).retries() == old(self).retries().drop_first()
                && final(self).active_batches() == old(self).active_batches().push(old(self).retries()[0]),
            r == EncoderAction::PullInput ==> final(self).phase() == EncoderPhase::ReadyToProcess && !final(self).exhausted()
                && final(self).retries().len() == 0,
            old(self).ready().len() == 0 && old(self).phase() == EncoderPhase::ReadyToProcess && old(self).retries().len() == 0
                ==> (r is ForceCommit <==> old(self).force_commit_due())
                && (!old(self).force_commit_due() && old(self).exhausted() ==> r == EncoderAction::Finished)
                && (!old(self).force_commit_due() && !old(self).exhausted() ==> r == EncoderAction::PullInput),
            r is ForceCommit ==> final(self).phase() == EncoderPhase::AwaitingForceCommit
                && r == EncoderAction::ForceCommit(old(self).intended()),
            r == EncoderAction::Finished ==> final(self).phase() == EncoderPhase::Done && final(self).ready().len() == 0,
            r == next_step(old(self).ready(), old(self).phase(), old(self).retries(), old(self).intended(),
                old(self).exhausted(), old(self).active_rows(), old(self).row_limit()),
            r is Yield || r is Encode || r is ForceCommit || r == EncoderAction::PullInput || r == EncoderAction::Finished
                || r == EncoderAction::AwaitInitialVersion,
            r is Encode || r is ForceCommit || is_settled(final(self).phase()),
            out_queue(*final(self)) == out_queue(*old(self)),
            final(self).active_batches() == old(self).active_batches() + encoded_by(r),
    {
        if self.ready_to_yield.len() > 0 {
            let ghost r0 = self.ready_to_yield@;
            let id = self.ready_to_yield.remove(0);
            proof {
                broadcast use vstd::seq_lib::group_to_multiset_ensures;

                assert(r0.drop_first() =~= r0.remove(0));
                let y0 = self.yielded@;
                self.yielded@ = self.yielded@.push(id);
                assert(in_flight(self.retry_queue@, self.active_raw@, self.ready_to_yield@, self.yielded@)
                    =~= in_flight(self.retry_queue@, self.active_raw@, r0, y0));
                assert(self.yielded@ + self.ready_to_yield@ =~= y0 + r0);
                assert(self.active_raw@ =~= self.active_raw@ + Seq::<u64>::empty());
            }
            return EncoderAction::Yield(id);
        }
        match self.phase {
            EncoderPhase::AwaitingInitialVersion => EncoderAction::AwaitInitialVersion,
            EncoderPhase::ReadyToProcess => {
                if self.retry_queue.len() > 0 {
                    let ghost q0 = self.retry_queue@;
                    let ghost a0 = self.active_raw@;
                    let batch = self.retry_queue.remove(0);
                    self.active_raw.push(batch);
                    self.phase = EncoderPhase::AwaitingEncoding;
                    proof {
                        broadcast use vstd::seq_lib::group_to_multiset_ensures;

                        assert(q0.drop_first() =~= q0.remove(0));
                        assert(in_flight(self.retry_queue@, self.active_raw@, self.ready_to_yield@, self.yielded@)
                            =~= in_flight(q0, a0, self.ready_to_yield@, self.yielded@));
                    }
                    return EncoderAction::Encode { batch, txn_id: self.intended_delta_version };
                }
                if self.should_force_commit() {
                    self.phase = EncoderPhase::AwaitingForceCommit;
                    return EncoderAction::ForceCommit(self.intended_delta_version);
                }
                if self.is_exhausted {
                    proof {
                        lemma_total_rows_nonnegative(self.active_rows@);
                    }
                    self.phase = EncoderPhase::Done;
                    return EncoderAction::Finished;
                }
                EncoderAction::PullInput
            },
            _ => EncoderAction::Finished,
        }
    }
}

impl EncoderMachine {
    /// The delta version to encode into arrived.
    pub fn on_initial_version(&mut self, version: u64) -> (r: EncoderAction)
        requires
            old(self).wf(),
            old(self).phase() == EncoderPhase::AwaitingInitialVersion,
        ensures
            final(self).wf(),
            final(self).intended() == version,
            final(self).seen() == old(self).seen(),
            out_queue(*final(self)) == out_queue(*old(self)),
            r == next_step(old(self).ready(), EncoderPhase::ReadyToProcess, old(self).retries(), version,
                old(self).exhausted(), old(self).active_rows(), old(self).row_limit()),
            r == EncoderAction::Finished ==> final(self).phase() == EncoderPhase::Done && final(self).ready().len() == 0,
            r is Yield || r is Encode || r is ForceCommit || r == EncoderAction::PullInput || r == EncoderAction::Finished,
            r is Encode || r is ForceCommit || is_settled(final(self).phase()),
    {
        self.intended_delta_version = version;
        self.phase = EncoderPhase::ReadyToProcess;
        self.poll_next()
    }

    /// The next input batch arrived (`None` when the input is used up): it is encoded into
    /// the active transaction.
    pub fn on_input(&mut self, batch: Option<u64>) -> (r: EncoderAction)
        requires
            old(self).wf(),
            old(self).phase() == EncoderPhase::ReadyToProcess,
            old(self).ready().len() == 0,
        ensures
            final(self).wf(),
            final(self).intended() == old(self).intended(),
            match batch {
                Some(b) => r == (EncoderAction::Encode { batch: b, txn_id: old(self).intended() })
                    && final(self).seen() == old(self).seen().push(b)
                    && final(self).phase() == EncoderPhase::AwaitingEncoding
                    && final(self).active_batches() == old(self).active_batches().push(b),
                None => final(self).exhausted() && final(self).seen() == old(self).seen()
                    && r == next_step(old(self).ready(), EncoderPhase::ReadyToProcess, old(self).retries(),
                        old(self).intended(), true, old(self).active_rows(), old(self).row_limit()),
            },
            r == EncoderAction::Finished ==> final(self).phase() == EncoderPhase::Done && final(self).ready().len() == 0,
            out_queue(*final(self)) == out_queue(*old(self)),
            r is Encode || r is ForceCommit || is_settled(final(self).phase()),
    {
        match batch {
            Some(b) => {
                let ghost a0 = self.active_raw@;
                self.active_raw.push(b);
                self.phase = EncoderPhase::AwaitingEncoding;
                proof {
                    broadcast use vstd::seq_lib::group_to_multiset_ensures, vstd::multiset::group_multiset_axioms;

                    let s0 = self.seen@;
                    self.seen@ = self.seen@.push(b);
                    assert(in_flight(self.retry_queue@, self.active_raw@, self.ready_to_yield@, self.yielded@)
                        =~= in_flight(self.retry_queue@, a0, self.ready_to_yield@, self.yielded@).insert(b));
                }
                EncoderAction::Encode { batch: b, txn_id: self.intended_delta_version }
            },
            None => {
                self.is_exhausted = true;
                self.poll_next()
            },
        }
    }

    /// Encoding the last batch of the active transaction ended.
    pub fn on_encoded(&mut self, outcome: EncodeOutcome) -> (r: EncoderAction)
        requires
            old(self).wf(),
            old(self).phase() == EncoderPhase::AwaitingEncoding,
            old(self).intended() < u64::MAX,
        ensures
            final(self).wf(),
            final(self).seen() == old(self).seen(),
            match outcome {
                EncodeOutcome::Buffering { rows } => final(self).active_rows() == old(self).active_rows().push(rows)
                    && final(self).intended() == old(self).intended()
                    && out_queue(*final(self)) == out_queue(*old(self))
                    && r == next_step(old(self).ready(), EncoderPhase::ReadyToProcess, old(self).retries(),
                        old(self).intended(), old(self).exhausted(), old(self).active_rows().push(rows),
                        old(self).row_limit()),
                EncodeOutcome::TriggeredCommit { rows } => r == EncoderAction::CommitToDelta
                    && final(self).active_rows() == old(self).active_rows().push(rows)
                    && final(self).phase() == EncoderPhase::AwaitingDictionaryDeltaCommit
                    && final(self).intended() == old(self).intended()
                    && out_queue(*final(self)) == out_queue(*old(self)),
                EncodeOutcome::Closed(TxnOutcome::Committed) => final(self).intended() == old(self).intended() + 1
                    && out_queue(*final(self)) == out_queue(*old(self)) + old(self).active_batches().drop_last()
                    && final(self).active_batches() == encoded_by(r)
                    && r == next_step(old(self).ready() + old(self).active_batches().drop_last(),
                        EncoderPhase::ReadyToProcess, seq![old(self).active_batches().last()] + old(self).retries(),
                        (old(self).intended() + 1) as u64, old(self).exhausted(), Seq::empty(), old(self).row_limit()),
                EncodeOutcome::Closed(TxnOutcome::Conflicted) => final(self).intended() == old(self).intended() + 1
                    && out_queue(*final(self)) == out_queue(*old(self))
                    && r == next_step(old(self).ready(), EncoderPhase::ReadyToProcess,
                        old(self).retries() + old(self).active_batches(), (old(self).intended() + 1) as u64,
                        old(self).exhausted(), Seq::empty(), old(self).row_limit()),
            },
            r == EncoderAction::Finished ==> final(self).phase() == EncoderPhase::Done && final(self).ready().len() == 0,
            r == EncoderAction::CommitToDelta || r is Encode || r is ForceCommit || is_settled(final(self).phase()),
    {
        match outcome {
            EncodeOutcome::Buffering { rows } => {
                self.active_rows.push(rows);
                self.phase = EncoderPhase::ReadyToProcess;
                self.poll_next()
            },
            EncodeOutcome::TriggeredCommit { rows } => {
                self.active_rows.push(rows);
                self.phase = EncoderPhase::AwaitingDictionaryDeltaCommit;
                EncoderAction::CommitToDelta
            },
            EncodeOutcome::Closed(TxnOutcome::Committed) => {
                // the transaction closed before this batch got in: encode it again first
                let ghost a0 = self.active_raw@;
                let ghost q0 = self.retry_queue@;
                let failed = self.active_raw.pop().unwrap();
                self.retry_queue.insert(0, failed);
                self.phase = EncoderPhase::ReadyToProcess;
                proof {
                    broadcast use vstd::seq_lib::group_to_multiset_ensures, vstd::multiset::group_multiset_axioms;

                    assert(a0 =~= self.active_raw@.push(failed));
                    assert(in_flight(self.retry_queue@, self.active_raw@, self.ready_to_yield@, self.yielded@)
                        =~= in_flight(q0, a0, self.ready_to_yield@, self.yielded@));
                }
                self.commit_succeeded();
                self.poll_next()
            },
            EncodeOutcome::Closed(TxnOutcome::Conflicted) => {
                let next_version = self.intended_delta_version + 1;
                self.conflicted(next_version);
                self.poll_next()
            },
        }
    }

    /// Forcing the commit of the active transaction ended.
    pub fn on_force_commit(&mut self, outcome: ForceCommitOutcome) -> (r: EncoderAction)
        requires
            old(self).wf(),
            old(self).phase() == EncoderPhase::AwaitingForceCommit,
            old(self).intended() < u64::MAX,
        ensures
            final(self).wf(),
            final(self).seen() == old(self).seen(),
            match outcome {
                ForceCommitOutcome::TriggeredCommit => r == EncoderAction::CommitToDelta
                    && final(self).phase() == EncoderPhase::AwaitingDictionaryDeltaCommit
                    && final(self).intended() == old(self).intended()
                    && out_queue(*final(self)) == out_queue(*old(self)),
                ForceCommitOutcome::Closed(TxnOutcome::Committed) => final(self).intended() == old(self).intended() + 1
                    && out_queue(*final(self)) == out_queue(*old(self)) + old(self).active_batches()
                    && final(self).active_batches() == encoded_by(r)
                    && r == next_step(old(self).ready() + old(self).active_batches(),
                        phase_after_commit(old(self).exhausted(), old(self).retries()), old(self).retries(),
                        (old(self).intended() + 1) as u64, old(self).exhausted(), Seq::empty(), old(self).row_limit()),
                ForceCommitOutcome::Closed(TxnOutcome::Conflicted) => final(self).intended() == old(self).intended() + 1
                    && out_queue(*final(self)) == out_queue(*old(self))
                    && r == next_step(old(self).ready(), EncoderPhase::ReadyToProcess,
                        old(self).retries() + old(self).active_batches(), (old(self).intended() + 1) as u64,
                        old(self).exhausted(), Seq::empty(), old(self).row_limit()),
            },
            r == EncoderAction::Finished ==> final(self).phase() == EncoderPhase::Done && final(self).ready().len() == 0,
            r == EncoderAction::CommitToDelta || r is Encode || r is ForceCommit || is_settled(final(self).phase()),
    {
        match outcome {
            ForceCommitOutcome::TriggeredCommit => {
                self.phase = EncoderPhase::AwaitingDictionaryDeltaCommit;
                EncoderAction::CommitToDelta
            },
            ForceCommitOutcome::Closed(TxnOutcome::Committed) => {
                self.commit_succeeded();
                self.poll_next()
            },
            ForceCommitOutcome::Closed(TxnOutcome::Conflicted) => {
                let next_version = self.intended_delta_version + 1;
                self.conflicted(next_version);
                self.poll_next()
            },
        }
    }

    /// Committing the handed-off transaction to the delta table ended: on success its
    /// batches are yielded and the outcome `Committed` is to be sent to those waiting for it;
    /// on a conflict the local dictionary is brought up to date first.
    pub fn on_delta_commit(&mut self, success: bool) -> (r: (Option<TxnOutcome>, EncoderAction))
        requires
            old(self).wf(),
            old(self).phase() == EncoderPhase::AwaitingDictionaryDeltaCommit,
            old(self).intended() < u64::MAX,
        ensures
            final(self).wf(),
            final(self).seen() == old(self).seen(),
            success ==> r.0 == Some(TxnOutcome::Committed) && final(self).intended() == old(self).intended() + 1
                && out_queue(*final(self)) == out_queue(*old(self)) + old(self).active_batches()
                && final(self).active_batches() == encoded_by(r.1)
                && r.1 == next_step(old(self).ready() + old(self).active_batches(),
                    phase_after_commit(old(self).exhausted(), old(self).retries()), old(self).retries(),
                    (old(self).intended() + 1) as u64, old(self).exhausted(), Seq::empty(), old(self).row_limit()),
            r.1 == EncoderAction::Finished ==> final(self).phase() == EncoderPhase::Done && final(self).ready().len() == 0,
            !success ==> r == (None::<TxnOutcome>, EncoderAction::SyncDictionary)
                && final(self).phase() == EncoderPhase::AwaitingLocalDictionaryUpdate
                && out_queue(*final(self)) == out_queue(*old(self))
                && final(self).active_batches() == old(self).active_batches(),
            r.1 == EncoderAction::SyncDictionary || r.1 is Encode || r.1 is ForceCommit || is_settled(final(self).phase()),
    {
        if success {
            self.commit_succeeded();
            (Some(TxnOutcome::Committed), self.poll_next())
        } else {
            self.phase = EncoderPhase::AwaitingLocalDictionaryUpdate;
            (None, EncoderAction::SyncDictionary)
        }
    }

    /// The local dictionary caught up after a conflict: the outcome `Conflicted` is to be sent
    /// to those waiting, and the raw batches are encoded again in the given version.
    pub fn on_synced(&mut self, next_version: u64) -> (r: (Option<TxnOutcome>, EncoderAction))
        requires
            old(self).wf(),
            old(self).phase() == EncoderPhase::AwaitingLocalDictionaryUpdate,
        ensures
            final(self).wf(),
            final(self).seen() == old(self).seen(),
            final(self).intended() == next_version,
            r.0 == Some(TxnOutcome::Conflicted),
            out_queue(*final(self)) == out_queue(*old(self)),
            r.1 == next_step(old(self).ready(), EncoderPhase::ReadyToProcess,
                old(self).retries() + old(self).active_batches(), next_version,
                old(self).exhausted(), Seq::empty(), old(self).row_limit()),
            r.1 == EncoderAction::Finished ==> final(self).phase() == EncoderPhase::Done && final(self).ready().len() == 0,
            r.1 is Encode || r.1 is ForceCommit || is_settled(final(self).phase()),
    {
        self.conflicted(next_version);
        (Some(TxnOutcome::Conflicted), self.poll_next())
    }
}

/// Once the stream has finished, each batch taken from the input was yielded exactly once,
/// but for batches without rows that were still buffered when the input ended.
pub proof fn lemma_finished_stream_yielded_every_batch(m: EncoderMachine)
    requires
        m.wf(),
        m.phase() == EncoderPhase::Done,
        m.ready().len() == 0,
    ensures
        m.seen().to_multiset() == m.yielded().to_multiset().add(m.active_batches().to_multiset()),
        m.active_rows().len() == m.active_batches().len(),
        total_rows(m.active_rows()) == 0,
        m.active_batches().len() == 0 ==> m.seen().to_multiset() == m.yielded().to_multiset(),
{
    broadcast use vstd::seq_lib::group_to_multiset_ensures, vstd::multiset::group_multiset_axioms;

    assert(m.retries().to_multiset() =~= Multiset::empty());
    assert(m.ready().to_multiset() =~= Multiset::empty());
    assert(m.seen().to_multiset() =~= m.yielded().to_multiset().add(m.active_batches().to_multiset()));
    if m.active_batches().len() == 0 {
        assert(m.active_batches().to_multiset() =~= Multiset::empty());
    }
}

} // verus!

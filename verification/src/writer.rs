//! The schedule of the shared dictionary writer: which delta version is open for encoding,
//! when its transaction is handed off to be committed, and which earlier versions can still
//! be asked for their outcome. The transactions and outcome channels live outside; the
//! schedule decides what happens to them.

use crate::decimal::{digits_of, format_u64};
use std::collections::HashSet;
use vstd::prelude::*;

verus! {

/// How a dictionary transaction ended.
#[derive(Debug, Clone, Copy, PartialEq, Eq, Hash, Structural)]
pub enum TxnOutcome {
    Committed,
    Conflicted,
}

/// Where a request for a delta version goes.
#[derive(Debug, Clone, Copy, PartialEq, Eq, Structural)]
pub enum WriterRoute {
    /// The version was closed earlier: wait for its outcome.
    AwaitOutcome(u64),
    /// The version is the active one.
    Active,
    /// The version is older than the active one but was never open here.
    UnknownTransaction(u64),
    /// The version is newer than the active one.
    FutureVersion(u64),
}

/// The schedule of the shared dictionary writer.
pub struct WriterSchedule {
    active_delta_version: u64,
    has_active_txn: bool,
    outcome_versions: HashSet<u64>,
}

impl WriterSchedule {
    /// The delta version that is open for encoding.
    pub closed spec fn active(&self) -> u64 {
        self.active_delta_version
    }

    /// Whether the active version has an open transaction.
    pub closed spec fn has_txn(&self) -> bool {
        self.has_active_txn
    }

    /// The versions whose outcome can be waited for.
    pub closed spec fn awaitable(&self) -> Set<u64> {
        self.outcome_versions@
    }

    /// The active version can always be waited for.
    pub closed spec fn wf(&self) -> bool {
        self.outcome_versions@.contains(self.active_delta_version)
    }

    /// Starts a schedule with the given version open and no transaction yet.
    pub fn new(active_delta_version: u64) -> (r: Self)
        ensures
            r.wf(),
            r.active() == active_delta_version,
            !r.has_txn(),
            r.awaitable() == set![active_delta_version],
    {
        broadcast use vstd::std_specs::hash::group_hash_axioms;

        let mut outcome_versions: HashSet<u64> = HashSet::new();
        outcome_versions.insert(active_delta_version);
        proof {
            assert(outcome_versions@ =~= set![active_delta_version]);
        }
        WriterSchedule { active_delta_version, has_active_txn: false, outcome_versions }
    }

    /// The delta version that is open for encoding.
    pub fn active_delta_version(&self) -> (r: u64)
        ensures
            r == self.active(),
    {
        self.active_delta_version
    }

    /// Where a request for the given version goes.
    pub fn route(&self, intended_delta_version: u64) -> (r: WriterRoute)
        ensures
            intended_delta_version == self.active() ==> r == WriterRoute::Active,
            intended_delta_version > self.active() ==> r == WriterRoute::FutureVersion(intended_delta_version),
            intended_delta_version < self.active() && self.awaitable().contains(intended_delta_version)
                ==> r == WriterRoute::AwaitOutcome(intended_delta_version),
            intended_delta_version < self.active() && !self.awaitable().contains(intended_delta_version)
                ==> r == WriterRoute::UnknownTransaction(intended_delta_version),
    {
        broadcast use vstd::std_specs::hash::group_hash_axioms;

        if intended_delta_version < self.active_delta_version {
            if self.outcome_versions.contains(&intended_delta_version) {
                WriterRoute::AwaitOutcome(intended_delta_version)
            } else {
                WriterRoute::UnknownTransaction(intended_delta_version)
            }
        } else if intended_delta_version == self.active_delta_version {
            WriterRoute::Active
        } else {
            WriterRoute::FutureVersion(intended_delta_version)
        }
    }

    /// Records that a transaction was opened for the active version.
    pub fn open_transaction(&mut self)
        ensures
            final(self).has_txn(),
            final(self).active() == old(self).active(),
            final(self).awaitable() == old(self).awaitable(),
            old(self).wf() ==> final(self).wf(),
    {
        self.has_active_txn = true;
    }

    /// Hands the active transaction off to be committed and opens the next version.
    fn advance(&mut self)
        requires
            old(self).wf(),
            old(self).active() < u64::MAX,
        ensures
            final(self).wf(),
            final(self).active() == old(self).active() + 1,
            !final(self).has_txn(),
            final(self).awaitable() == old(self).awaitable().insert(final(self).active()),
    {
        broadcast use vstd::std_specs::hash::group_hash_axioms;

        self.has_active_txn = false;
        self.active_delta_version = self.active_delta_version + 1;
        self.outcome_versions.insert(self.active_delta_version);
    }

    /// After a batch was encoded into the active transaction: whether the transaction now
    /// holds more new ids than allowed, in which case it is handed off to be committed and
    /// the next version opens.
    pub fn after_encode(&mut self, pending_ids: usize, max_buffered_ids: usize) -> (triggered: bool)
        requires
            old(self).wf(),
            old(self).active() < u64::MAX,
        ensures
            final(self).wf(),
            triggered == (pending_ids > max_buffered_ids),
            triggered ==> final(self).active() == old(self).active() + 1 && !final(self).has_txn()
                && final(self).awaitable() == old(self).awaitable().insert(final(self).active()),
            !triggered ==> final(self).active() == old(self).active() && final(self).has_txn() == old(self).has_txn()
                && final(self).awaitable() == old(self).awaitable(),
    {
        if pending_ids > max_buffered_ids {
            self.advance();
            true
        } else {
            false
        }
    }

    /// Forces the commit of the active version: whether there was a transaction to hand off
    /// (then the next version opens); without one, the version counts as committed.
    pub fn force_commit(&mut self) -> (triggered: bool)
        requires
            old(self).wf(),
            old(self).active() < u64::MAX,
        ensures
            final(self).wf(),
            triggered == old(self).has_txn(),
            triggered ==> final(self).active() == old(self).active() + 1 && !final(self).has_txn()
                && final(self).awaitable() == old(self).awaitable().insert(final(self).active()),
            !triggered ==> final(self).active() == old(self).active() && final(self).has_txn() == old(self).has_txn()
                && final(self).awaitable() == old(self).awaitable(),
    {
        if self.has_active_txn {
            self.advance();
            true
        } else {
            false
        }
    }

    /// Moves the active version forward to a newer one (after the dictionary caught up with
    /// the log); an older or equal version changes nothing.
    pub fn sync_active_version(&mut self, new_version: u64)
        requires
            old(self).wf(),
        ensures
            final(self).wf(),
            final(self).has_txn() == old(self).has_txn(),
            new_version > old(self).active() ==> final(self).active() == new_version
                && final(self).awaitable() == old(self).awaitable().insert(new_version),
            new_version <= old(self).active() ==> final(self).active() == old(self).active()
                && final(self).awaitable() == old(self).awaitable(),
    {
        broadcast use vstd::std_specs::hash::group_hash_axioms;

        if new_version > self.active_delta_version {
            self.active_delta_version = new_version;
            self.outcome_versions.insert(new_version);
        }
    }
}

/// The message of a request that cannot be served.
pub open spec fn route_error_message(r: WriterRoute) -> Option<Seq<char>> {
    match r {
        WriterRoute::UnknownTransaction(v) => Some("Unknown transaction id: "@ + digits_of(v as nat)),
        WriterRoute::FutureVersion(v) => Some("Intended delta version "@ + digits_of(v as nat) + " is in the future"@),
        _ => None,
    }
}

impl WriterRoute {
    /// The error message of a request that cannot be served, if it cannot.
    pub fn error_message(&self) -> (r: Option<String>)
        ensures
            match route_error_message(*self) {
                Some(m) => r matches Some(s) && s@ == m,
                None => r is None,
            },
    {
        match self {
            WriterRoute::UnknownTransaction(v) => {
                let mut s = String::new();
                s.append("Unknown transaction id: ");
                let d = format_u64(*v);
                s.append(d.as_str());
                Some(s)
            },
            WriterRoute::FutureVersion(v) => {
                let mut s = String::new();
                s.append("Intended delta version ");
                let d = format_u64(*v);
                s.append(d.as_str());
                s.append(" is in the future");
                Some(s)
            },
            _ => None,
        }
    }
}

} // verus!

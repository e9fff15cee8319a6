//! The in-memory local object id dictionary: its two tables and its metadata, the reads of a
//! snapshot, and how a transaction is started against it, committed into it or aborted.

use crate::claim::{
    loaded_claim, opt_chars, stored_claim, try_load_initial_claim_in_memory,
    write_claim_in_memory, BackendMetadata, LocalObjectIdError, ObjectIdClaimer,
};
use crate::decimal::digits_of;
use crate::term::{LocalDictionaryTerm, TermBytes};
use crate::transaction::{
    copy_term, is_repeat, lemma_terms_lookup, lemma_terms_untouched, lookup_view, pairs,
    row_encoded, row_term, rows_view, unique_terms, with_entries_ids, with_entries_terms,
    LocalTransaction, TermIdMaps, TermLookup,
};
use vstd::prelude::*;

verus! {

/// The id a term map holds for a term, if any.
pub open spec fn map_lookup(m: Map<TermBytes, i64>, t: TermBytes) -> Option<i64> {
    if m.dom().contains(t) {
        Some(m[t])
    } else {
        None
    }
}

/// Terms to encode, each with the id the dictionary holds for it.
pub open spec fn committed_rows(
    terms: Seq<Option<LocalDictionaryTerm>>,
    committed: Map<TermBytes, i64>,
) -> Seq<Option<(TermBytes, Option<i64>)>> {
    terms.map_values(
        |o: Option<LocalDictionaryTerm>|
            match o {
                Some(t) => Some((t.bytes_view(), map_lookup(committed, t.bytes_view()))),
                None => None,
            },
    )
}

/// The first non-null id that the dictionary does not hold is at `f`.
pub open spec fn first_unknown_id(ids: Seq<Option<i64>>, known: Map<i64, TermBytes>, f: int) -> bool {
    &&& 0 <= f < ids.len()
    &&& ids[f] matches Some(id) && !known.dom().contains(id)
    &&& forall|j: int|
        0 <= j < f ==> (#[trigger] ids[j] matches Some(id) ==> known.dom().contains(id))
}

/// The in-memory dictionary: a term to id table, an id to term table and the metadata.
pub struct InMemoryBackend {
    tables: TermIdMaps,
    metadata: BackendMetadata,
}

/// Inserting entries into a map gives the map with the entries' own map laid over it.
pub proof fn lemma_entries_over(m: Map<TermBytes, i64>, es: Seq<(i64, TermBytes)>)
    ensures
        with_entries_terms(m, es) == m.union_prefer_right(with_entries_terms(Map::empty(), es)),
    decreases es.len(),
{
    if es.len() > 0 {
        lemma_entries_over(m, es.drop_last());
        assert(with_entries_terms(m, es) =~= m.union_prefer_right(
            with_entries_terms(Map::empty(), es),
        ));
    }
}

impl InMemoryBackend {
    /// The terms the dictionary holds, with their ids.
    pub closed spec fn term_ids(&self) -> Map<TermBytes, i64> {
        self.tables.terms()
    }

    /// The ids the dictionary holds, with their terms.
    pub closed spec fn id_terms(&self) -> Map<i64, TermBytes> {
        self.tables.ids()
    }

    /// The metadata: synced version and claim bounds.
    pub closed spec fn meta(&self) -> BackendMetadata {
        self.metadata
    }

    /// The tables hold one entry per key.
    pub closed spec fn wf(&self) -> bool {
        self.tables.wf()
    }

    /// The metadata of the dictionary.
    pub fn metadata(&self) -> (r: &BackendMetadata)
        ensures
            *r == self.meta(),
    {
        &self.metadata
    }

    /// Replaces the metadata of the dictionary.
    pub fn set_metadata(&mut self, metadata: BackendMetadata)
        ensures
            final(self).meta() == metadata,
            final(self).term_ids() == old(self).term_ids(),
            final(self).id_terms() == old(self).id_terms(),
            final(self).wf() == old(self).wf(),
    {
        self.metadata = metadata;
    }

    /// An empty dictionary.
    pub fn new() -> (r: Self)
        ensures
            r.wf(),
            r.term_ids() == Map::<TermBytes, i64>::empty(),
            r.id_terms() == Map::<i64, TermBytes>::empty(),
            r.meta().synced_version is None,
            r.meta().next_free_id is None,
            r.meta().last_free_id is None,
    {
        InMemoryBackend {
            tables: TermIdMaps::new(),
            metadata: BackendMetadata { synced_version: None, next_free_id: None, last_free_id: None },
        }
    }

    /// The id the dictionary holds for a term, if any.
    pub fn get_id_by_term(&self, t: &LocalDictionaryTerm) -> (r: Option<i64>)
        requires
            self.wf(),
        ensures
            r == map_lookup(self.term_ids(), t.bytes_view()),
    {
        self.tables.id_of(t)
    }

    /// How many ids the dictionary holds.
    pub fn len(&self) -> (r: usize)
        requires
            self.wf(),
        ensures
            r == self.id_terms().dom().len(),
    {
        self.tables.id_count()
    }

    /// Whether the dictionary holds no id.
    pub fn is_empty(&self) -> (r: bool)
        requires
            self.wf(),
        ensures
            r == (self.id_terms().dom().len() == 0),
    {
        self.tables.id_count() == 0
    }

    /// Resolves object ids to their terms; a null id stays null, and the first id the
    /// dictionary does not hold fails the resolution with `NotFound`.
    pub fn resolve_plain_terms(&self, ids: &[Option<i64>]) -> (r: Result<
        Vec<Option<LocalDictionaryTerm>>,
        LocalObjectIdError,
    >)
        requires
            self.wf(),
        ensures
            r is Ok <==> forall|i: int|
                0 <= i < ids@.len() ==> (#[trigger] ids@[i] matches Some(id) ==> self.id_terms().dom().contains(
                    id,
                )),
            r matches Ok(out) ==> out@.len() == ids@.len() && forall|i: int|
                0 <= i < ids@.len() ==> match #[trigger] ids@[i] {
                    None => out@[i] is None,
                    Some(id) => out@[i] matches Some(t) && t.bytes_view() == self.id_terms()[id],
                },
            r matches Err(e) ==> exists|f: int|
                first_unknown_id(ids@, self.id_terms(), f) && e == LocalObjectIdError::NotFound(
                    ids@[f].unwrap(),
                ),
    {
        let mut out: Vec<Option<LocalDictionaryTerm>> = Vec::new();
        let mut last: Option<(i64, usize)> = None;
        let mut i: usize = 0;
        while i < ids.len()
            invariant
                self.wf(),
                i <= ids@.len(),
                out@.len() == i,
                forall|j: int|
                    0 <= j < i ==> (#[trigger] ids@[j] matches Some(id) ==> self.id_terms().dom().contains(id)),
                forall|j: int|
                    0 <= j < i ==> match #[trigger] ids@[j] {
                        None => out@[j] is None,
                        Some(id) => out@[j] matches Some(t) && t.bytes_view() == self.id_terms()[id],
                    },
                last matches Some((id, k)) ==> k < i && ids@[k as int] == Some(id),
            decreases ids@.len() - i,
        {
            match ids[i] {
                None => {
                    out.push(None);
                },
                Some(id) => {
                    let repeated = match last {
                        Some((last_id, k)) => if last_id == id {
                            match &out[k] {
                                Some(t) => Some(copy_term(t)),
                                None => None,
                            }
                        } else {
                            None
                        },
                        None => None,
                    };
                    let term = match repeated {
                        Some(t) => t,
                        None => match self.tables.term_of(id) {
                            Some(t) => t,
                            None => {
                                proof {
                                    assert(first_unknown_id(ids@, self.id_terms(), i as int));
                                }
                                return Err(LocalObjectIdError::NotFound(id));
                            },
                        },
                    };
                    out.push(Some(term));
                    last = Some((id, i));
                },
            }
            i = i + 1;
        }
        Ok(out)
    }

    /// The rows to encode: each term with the id the dictionary holds for it.
    pub fn lookup_rows(&self, terms: &[Option<LocalDictionaryTerm>]) -> (r: Vec<Option<TermLookup>>)
        requires
            self.wf(),
        ensures
            rows_view(r@) == committed_rows(terms@, self.term_ids()),
    {
        let mut rows: Vec<Option<TermLookup>> = Vec::new();
        let mut i: usize = 0;
        while i < terms.len()
            invariant
                self.wf(),
                i <= terms@.len(),
                rows@.len() == i,
                rows_view(rows@) == committed_rows(
                    terms@.take(i as int),
                    self.term_ids(),
                ),
            decreases terms@.len() - i,
        {
            let row = match &terms[i] {
                None => None,
                Some(t) => Some(TermLookup { term: copy_term(t), committed_id: self.tables.id_of(t) }),
            };
            proof {
                match terms@[i as int] {
                    None => assert(row is None),
                    Some(t) => assert(row matches Some(l) && lookup_view(l) == (
                    t.bytes_view(), map_lookup(self.term_ids(), t.bytes_view()))),
                }
            }
            let ghost before = rows@;
            rows.push(row);
            proof {
                assert(terms@.take(i as int + 1) =~= terms@.take(i as int).push(terms@[i as int]));
                assert forall|k: int| 0 <= k < i implies rows_view(rows@)[k]
                    == rows_view(before)[k] by {
                    assert(rows@[k] == before[k]);
                }
                assert(rows@[i as int] == row);
                let target = committed_rows(terms@.take(i as int + 1), self.term_ids());
                let prev = committed_rows(terms@.take(i as int), self.term_ids());
                assert forall|k: int| 0 <= k < i + 1 implies rows_view(rows@)[k]
                    == target[k] by {
                    if k < i {
                        assert(terms@.take(i as int + 1)[k] == terms@.take(i as int)[k]);
                        assert(target[k] == prev[k]);
                        assert(rows_view(before)[k] == prev[k]);
                    } else {
                        assert(terms@.take(i as int + 1)[k] == terms@[i as int]);
                    }
                }
                assert(rows_view(rows@) =~= committed_rows(
                    terms@.take(i as int + 1),
                    self.term_ids(),
                ));
            }
            i = i + 1;
        }
        proof {
            assert(terms@.take(terms@.len() as int) =~= terms@);
        }
        rows
    }

    /// Starts a transaction with the claim kept in the metadata.
    pub fn transaction<C: ObjectIdClaimer>(&self, claimer: Option<C>) -> (r: Result<
        LocalTransaction<C>,
        LocalObjectIdError,
    >)
        ensures
            match loaded_claim(
                opt_chars(self.meta().next_free_id),
                opt_chars(self.meta().last_free_id),
            ) {
                Some(c) => r matches Ok(txn) && txn.wf() && txn.current() == c && txn.reset_state()
                    == c && txn.pending_terms() == Map::<TermBytes, i64>::empty()
                    && txn.pending_ids() == Map::<i64, TermBytes>::empty(),
                None => r matches Err(LocalObjectIdError::Corruption(_)),
            },
    {
        let initial_claim = try_load_initial_claim_in_memory(&self.metadata)?;
        Ok(LocalTransaction::new(initial_claim, claimer))
    }

    /// Commits a transaction at a log version: every pending term is kept under its pending
    /// id in both tables, and the synced version and the claim left are written.
    pub fn commit_transaction<C: ObjectIdClaimer>(
        &mut self,
        txn: LocalTransaction<C>,
        delta_version: u64,
    )
        requires
            old(self).wf(),
            txn.wf(),
        ensures
            final(self).wf(),
            final(self).term_ids() == old(self).term_ids().union_prefer_right(txn.pending_terms()),
            forall|t: TermBytes|
                #![trigger txn.pending_terms().dom().contains(t)]
                txn.pending_terms().dom().contains(t) ==> final(self).id_terms().dom().contains(
                    txn.pending_terms()[t],
                ) && txn.pending_terms().dom().contains(final(self).id_terms()[txn.pending_terms()[t]])
                    && txn.pending_terms()[final(self).id_terms()[txn.pending_terms()[t]]]
                    == txn.pending_terms()[t],
            opt_chars(final(self).meta().synced_version) == Some(digits_of(delta_version as nat)),
            (opt_chars(final(self).meta().next_free_id), opt_chars(
                final(self).meta().last_free_id,
            )) == stored_claim(txn.current()),
    {
        let ghost pending = txn.pending_terms();
        let commit = txn.commit(delta_version);
        let ghost es = pairs(commit.entries@);
        let ghost ids0 = self.id_terms();
        self.tables.insert_all(commit.entries.as_slice());
        proof {
            lemma_entries_over(old(self).term_ids(), es);
            assert forall|t: TermBytes| #[trigger] pending.dom().contains(t) implies self.id_terms().dom().contains(
                pending[t],
            ) && pending.dom().contains(self.id_terms()[pending[t]])
                && pending[self.id_terms()[pending[t]]] == pending[t] by {
                lemma_committed_id_holds_a_pending_term(ids0, es, t);
            }
        }
        commit.write_metadata(&mut self.metadata);
    }

    /// Aborts a transaction: the claim to restore is written back.
    pub fn abort_transaction<C: ObjectIdClaimer>(&mut self, txn: LocalTransaction<C>)
        ensures
            final(self).term_ids() == old(self).term_ids(),
            final(self).id_terms() == old(self).id_terms(),
            final(self).wf() == old(self).wf(),
            (opt_chars(final(self).meta().next_free_id), opt_chars(
                final(self).meta().last_free_id,
            )) == stored_claim(txn.reset_state()),
            opt_chars(final(self).meta().synced_version) == opt_chars(
                old(self).meta().synced_version,
            ),
    {
        let reset = txn.abort();
        write_claim_in_memory(&mut self.metadata, reset);
    }
}

/// After entries with unique terms are inserted into an id map, the id of each entry's term
/// holds a term whose entry has that id.
proof fn lemma_committed_id_holds_a_pending_term(
    ids: Map<i64, TermBytes>,
    es: Seq<(i64, TermBytes)>,
    t: TermBytes,
)
    requires
        unique_terms(es),
        with_entries_terms(Map::empty(), es).dom().contains(t),
    ensures
        ({
            let pending = with_entries_terms(Map::empty(), es);
            let after = with_entries_ids(ids, es);
            &&& after.dom().contains(pending[t])
            &&& pending.dom().contains(after[pending[t]])
            &&& pending[after[pending[t]]] == pending[t]
        }),
{
    let pending = with_entries_terms(Map::empty(), es);
    let after = with_entries_ids(ids, es);
    if forall|k: int| 0 <= k < es.len() ==> es[k].1 != t {
        lemma_terms_untouched(Map::empty(), es, t);
    }
    let k = choose|k: int| 0 <= k < es.len() && es[k].1 == t;
    lemma_terms_lookup(Map::empty(), es, k);
    let x = es[k].0;
    lemma_ids_last_entry(ids, es, x, k);
    let j = choose|j: int| 0 <= j < es.len() && es[j].0 == x && after[x] == es[j].1;
    lemma_terms_lookup(Map::empty(), es, j);
}

/// An id that some entry has is in the id map after the entries are inserted, holding the
/// term of one of the entries with that id.
proof fn lemma_ids_last_entry(ids: Map<i64, TermBytes>, es: Seq<(i64, TermBytes)>, x: i64, k: int)
    requires
        0 <= k < es.len(),
        es[k].0 == x,
    ensures
        with_entries_ids(ids, es).dom().contains(x),
        exists|j: int|
            0 <= j < es.len() && es[j].0 == x && with_entries_ids(ids, es)[x]
                == es[j].1,
    decreases es.len(),
{
    let n = es.len() - 1;
    if es[n].0 != x {
        lemma_ids_last_entry(ids, es.drop_last(), x, k);
        let j = choose|j: int|
            0 <= j < es.drop_last().len() && es.drop_last()[j].0 == x
                && with_entries_ids(ids, es.drop_last())[x] == es.drop_last()[j].1;
        assert(es[j] == es.drop_last()[j]);
    } else {
        assert(with_entries_ids(ids, es)[x] == es[n].1);
    }
}

/// A term that a transaction encoded to a new or pending id is found under that id once the
/// transaction is committed into the dictionary (whatever the dictionary held before).
pub proof fn lemma_encoded_term_found_after_commit(
    rows: Seq<Option<(TermBytes, Option<i64>)>>,
    out: Seq<Option<i64>>,
    pending: Map<TermBytes, i64>,
    before: Map<TermBytes, i64>,
    i: int,
)
    requires
        0 <= i < rows.len(),
        rows[i] matches Some((_, committed)) && committed is None,
        !is_repeat(rows, i),
        row_encoded(rows, out, pending, i),
    ensures
        out[i] == map_lookup(before.union_prefer_right(pending), row_term(rows, i)),
{
}

} // verus!

//! Transactions of the local object id dictionary: encoding terms to object ids (reusing the
//! committed ids, the ids assigned earlier in the transaction, or handing out new ones from the
//! claim), recording batches of the global dictionary, and what is written on commit or abort.
//!
//! The pending terms and ids are the two maps of the transaction: term to id and id to term,
//! where a later entry replaces an earlier one with the same key. The id map is an ordered map
//! keyed by id; the term map is a list of entries whose terms are unique, which lookups scan
//! (terms are strings, which the ordered and hashed maps cannot be proved to key).

use crate::claim::{
    claim_after_ids, opt_chars, stored_claim, take_from, taken_ids, write_claim_in_memory,
    write_synced_version, BackendMetadata, LocalObjectIdError, ObjectIdClaimer, TransactionClaim,
};
use crate::decimal::digits_of;
use crate::term::{LocalDictionaryTerm, RedbTerm, TermBytes};
use std::collections::BTreeMap;
use vstd::std_specs::cmp::OrdSpec;
use vstd::std_specs::iter::IteratorSpec;
use vstd::prelude::*;

verus! {

/// An entry of the pending maps: an object id and its term.
#[derive(Debug)]
pub struct PendingEntry {
    pub id: i64,
    pub term: LocalDictionaryTerm,
}

impl PendingEntry {
    /// The entry as an id and the bytes of its term.
    pub open spec fn pair(self) -> (i64, TermBytes) {
        (self.id, self.term.bytes_view())
    }
}

/// The entries as ids and term bytes.
pub open spec fn pairs(es: Seq<PendingEntry>) -> Seq<(i64, TermBytes)> {
    es.map_values(|e: PendingEntry| e.pair())
}

/// The term to id map after the entries are inserted into `m` in order.
pub open spec fn with_entries_terms(m: Map<TermBytes, i64>, es: Seq<(i64, TermBytes)>) -> Map<
    TermBytes,
    i64,
>
    decreases es.len(),
{
    if es.len() == 0 {
        m
    } else {
        with_entries_terms(m, es.drop_last()).insert(es.last().1, es.last().0)
    }
}

/// The id to term map after the entries are inserted into `m` in order.
pub open spec fn with_entries_ids(m: Map<i64, TermBytes>, es: Seq<(i64, TermBytes)>) -> Map<
    i64,
    TermBytes,
>
    decreases es.len(),
{
    if es.len() == 0 {
        m
    } else {
        with_entries_ids(m, es.drop_last()).insert(es.last().0, es.last().1)
    }
}

/// No two entries share a term.
pub open spec fn unique_terms(es: Seq<(i64, TermBytes)>) -> bool {
    forall|i: int, j: int| 0 <= i < j < es.len() ==> es[i].1 != es[j].1
}

/// No two entries share an id.
pub open spec fn unique_ids(es: Seq<(i64, TermBytes)>) -> bool {
    forall|i: int, j: int| 0 <= i < j < es.len() ==> es[i].0 != es[j].0
}

/// Inserting entries none of which has the term leaves the term's entry in `m` as it was.
pub proof fn lemma_terms_untouched(m: Map<TermBytes, i64>, es: Seq<(i64, TermBytes)>, t: TermBytes)
    requires
        forall|k: int| 0 <= k < es.len() ==> es[k].1 != t,
    ensures
        with_entries_terms(m, es).dom().contains(t) == m.dom().contains(t),
        m.dom().contains(t) ==> with_entries_terms(m, es)[t] == m[t],
    decreases es.len(),
{
    if es.len() > 0 {
        lemma_terms_untouched(m, es.drop_last(), t);
    }
}

/// A term that some entry has is in the map after the entries are inserted.
pub proof fn lemma_terms_present(m: Map<TermBytes, i64>, es: Seq<(i64, TermBytes)>, k: int)
    requires
        0 <= k < es.len(),
    ensures
        with_entries_terms(m, es).dom().contains(es[k].1),
    decreases es.len(),
{
    if k < es.len() - 1 {
        lemma_terms_present(m, es.drop_last(), k);
    }
}

/// With unique terms, the map holds each entry's id under its term.
pub proof fn lemma_terms_lookup(m: Map<TermBytes, i64>, es: Seq<(i64, TermBytes)>, k: int)
    requires
        unique_terms(es),
        0 <= k < es.len(),
    ensures
        with_entries_terms(m, es).dom().contains(es[k].1),
        with_entries_terms(m, es)[es[k].1] == es[k].0,
    decreases es.len(),
{
    if k < es.len() - 1 {
        lemma_terms_lookup(m, es.drop_last(), k);
    }
}

/// With unique terms, replacing the id of one entry replaces it in the map.
pub proof fn lemma_terms_update(m: Map<TermBytes, i64>, es: Seq<(i64, TermBytes)>, k: int, id: i64)
    requires
        unique_terms(es),
        0 <= k < es.len(),
    ensures
        with_entries_terms(m, es.update(k, (id, es[k].1))) == with_entries_terms(m, es).insert(
            es[k].1,
            id,
        ),
    decreases es.len(),
{
    let t = es[k].1;
    let up = es.update(k, (id, t));
    if k == es.len() - 1 {
        assert(up.drop_last() =~= es.drop_last());
        assert(with_entries_terms(m, up) =~= with_entries_terms(m, es).insert(t, id));
    } else {
        assert(up.drop_last() =~= es.drop_last().update(k, (id, t)));
        lemma_terms_update(m, es.drop_last(), k, id);
        assert(es.last().1 != t);
        assert(with_entries_terms(m, up) =~= with_entries_terms(m, es).insert(t, id));
    }
}

/// Inserting entries none of which has the id leaves the id's entry in `m` as it was.
pub proof fn lemma_ids_untouched(m: Map<i64, TermBytes>, es: Seq<(i64, TermBytes)>, id: i64)
    requires
        forall|k: int| 0 <= k < es.len() ==> es[k].0 != id,
    ensures
        with_entries_ids(m, es).dom().contains(id) == m.dom().contains(id),
        m.dom().contains(id) ==> with_entries_ids(m, es)[id] == m[id],
    decreases es.len(),
{
    if es.len() > 0 {
        lemma_ids_untouched(m, es.drop_last(), id);
    }
}

/// With unique ids, the map holds each entry's term under its id.
pub proof fn lemma_ids_lookup(m: Map<i64, TermBytes>, es: Seq<(i64, TermBytes)>, k: int)
    requires
        unique_ids(es),
        0 <= k < es.len(),
    ensures
        with_entries_ids(m, es).dom().contains(es[k].0),
        with_entries_ids(m, es)[es[k].0] == es[k].1,
    decreases es.len(),
{
    if k < es.len() - 1 {
        lemma_ids_lookup(m, es.drop_last(), k);
    }
}

/// A row of an array to encode: a term, with the id the committed dictionary holds for it (as
/// looked up in its tables or cache before the row is encoded).
#[derive(Debug)]
pub struct TermLookup {
    pub term: LocalDictionaryTerm,
    pub committed_id: Option<i64>,
}

/// A row as the bytes of its term and its committed id.
pub open spec fn lookup_view(l: TermLookup) -> (TermBytes, Option<i64>) {
    (l.term.bytes_view(), l.committed_id)
}

/// The rows as term bytes and committed ids.
pub open spec fn rows_view(rows: Seq<Option<TermLookup>>) -> Seq<Option<(TermBytes, Option<i64>)>> {
    rows.map_values(
        |r: Option<TermLookup>|
            match r {
                Some(l) => Some(lookup_view(l)),
                None => None,
            },
    )
}

/// The term bytes of a non-null row.
pub open spec fn row_term(rows: Seq<Option<(TermBytes, Option<i64>)>>, i: int) -> TermBytes {
    rows[i].unwrap().0
}

/// The last non-null row before row `i` (`-1` when there is none).
pub open spec fn prev_row<T>(rows: Seq<Option<T>>, i: int) -> int
    decreases i,
{
    if i <= 0 {
        -1
    } else if rows[i - 1] is Some {
        i - 1
    } else {
        prev_row(rows, i - 1)
    }
}

/// Row `i` has the same term as the last non-null row before it.
pub open spec fn is_repeat(rows: Seq<Option<(TermBytes, Option<i64>)>>, i: int) -> bool {
    prev_row(rows, i) >= 0 && row_term(rows, prev_row(rows, i)) == row_term(rows, i)
}

/// Row `i` needs a new id: it is a term that is not a repeat, not committed, not pending and
/// not among the terms `fresh` that earlier rows gave new ids.
pub open spec fn needs_new_id(
    pending: Map<TermBytes, i64>,
    fresh: Seq<TermBytes>,
    rows: Seq<Option<(TermBytes, Option<i64>)>>,
    i: int,
) -> bool {
    &&& rows[i] is Some
    &&& !is_repeat(rows, i)
    &&& rows[i].unwrap().1 is None
    &&& !pending.dom().contains(row_term(rows, i))
    &&& !fresh.contains(row_term(rows, i))
}

/// The terms among the first `k` rows that get new ids, in the order of their first row.
pub open spec fn new_terms(pending: Map<TermBytes, i64>, rows: Seq<Option<(TermBytes, Option<i64>)>>, k: int) -> Seq<
    TermBytes,
>
    decreases k,
{
    if k <= 0 {
        seq![]
    } else {
        let prev = new_terms(pending, rows, k - 1);
        if needs_new_id(pending, prev, rows, k - 1) {
            prev.push(row_term(rows, k - 1))
        } else {
            prev
        }
    }
}

/// New terms with the ids a term map holds for them.
pub open spec fn assigned(nt: Seq<TermBytes>, terms: Map<TermBytes, i64>) -> Seq<(i64, TermBytes)> {
    nt.map_values(|t: TermBytes| (terms[t], t))
}

/// What row `i` encodes to, given the pending terms after the encoding: nothing for a null
/// row, the id of the previous row for a repeat, else the committed id, else the pending one.
pub open spec fn row_encoded(
    rows: Seq<Option<(TermBytes, Option<i64>)>>,
    out: Seq<Option<i64>>,
    terms: Map<TermBytes, i64>,
    i: int,
) -> bool {
    match rows[i] {
        None => out[i] is None,
        Some((t, committed)) => if is_repeat(rows, i) {
            out[i] == out[prev_row(rows, i)]
        } else {
            match committed {
                Some(c) => out[i] == Some(c),
                None => terms.dom().contains(t) && out[i] == Some(terms[t]),
            }
        },
    }
}

/// The claim left after taking `k` ids from it (as far as it holds them).
pub open spec fn taken_claim(state: Option<(i64, i64)>, k: nat) -> Option<(i64, i64)>
    decreases k,
{
    if k == 0 {
        state
    } else {
        match take_from(state) {
            Some((Some(_), left)) => taken_claim(left, (k - 1) as nat),
            _ => state,
        }
    }
}

/// When a claim holds `total` ids, the `m`-th take hands out the `m`-th of them.
pub proof fn lemma_taken_step(state: Option<(i64, i64)>, m: nat, total: nat)
    requires
        m < total,
        taken_ids(state, total).len() == total,
    ensures
        take_from(taken_claim(state, m)) == Some(
            (Some(taken_ids(state, total)[m as int]), taken_claim(state, m + 1)),
        ),
    decreases m,
{
    match take_from(state) {
        Some((Some(id), left)) => {
            if m > 0 {
                lemma_taken_step(left, (m - 1) as nat, (total - 1) as nat);
                assert(taken_claim(state, (m + 1) as nat) == taken_claim(left, m));
            }
        },
        _ => {},
    }
}

/// The new terms of a prefix of the rows are a prefix of those of all the rows.
pub proof fn lemma_new_terms_prefix(
    pending: Map<TermBytes, i64>,
    rows: Seq<Option<(TermBytes, Option<i64>)>>,
    i: int,
    n: int,
)
    requires
        0 <= i <= n,
    ensures
        new_terms(pending, rows, i).len() <= new_terms(pending, rows, n).len(),
        forall|k: int|
            0 <= k < new_terms(pending, rows, i).len() ==> new_terms(pending, rows, i)[k]
                == new_terms(pending, rows, n)[k],
    decreases n,
{
    if i < n {
        lemma_new_terms_prefix(pending, rows, i, n - 1);
    }
}

/// The last non-null row before row `i` comes before it.
pub proof fn lemma_prev_row_below<T>(rows: Seq<Option<T>>, i: int)
    requires
        i >= 0,
    ensures
        prev_row(rows, i) < i,
        prev_row(rows, i) >= 0 ==> rows[prev_row(rows, i)] is Some,
    decreases i,
{
    if i > 0 && rows[i - 1] is None {
        lemma_prev_row_below(rows, i - 1);
    }
}

/// A term is in the map after new terms are assigned iff it was in `m` or is a new term.
pub proof fn lemma_assigned_dom(
    m: Map<TermBytes, i64>,
    nt: Seq<TermBytes>,
    terms: Map<TermBytes, i64>,
    t: TermBytes,
)
    ensures
        with_entries_terms(m, assigned(nt, terms)).dom().contains(t) == (m.dom().contains(t)
            || nt.contains(t)),
{
    let es = assigned(nt, terms);
    if nt.contains(t) {
        let k = choose|k: int| 0 <= k < nt.len() && nt[k] == t;
        lemma_terms_present(m, es, k);
    } else {
        lemma_terms_untouched(m, es, t);
    }
}

/// Whether two terms have the same bytes.
fn same_term(a: &LocalDictionaryTerm, b: &LocalDictionaryTerm) -> (r: bool)
    ensures
        r == (a.bytes_view() == b.bytes_view()),
{
    RedbTerm::from_local_term(a).equivalent(b)
}

/// A copy of a term.
pub(crate) fn copy_term(t: &LocalDictionaryTerm) -> (r: LocalDictionaryTerm)
    ensures
        r.bytes_view() == t.bytes_view(),
{
    RedbTerm::from_local_term(t).as_local_dictionary_term()
}

/// A term to id map, kept as a list with one entry per term, and an id to term map; an entry
/// inserted later replaces what either map held under its term or its id.
pub struct TermIdMaps {
    /// The term to id map, one entry per term.
    by_term: Vec<PendingEntry>,
    /// The id to term map.
    by_id: BTreeMap<i64, LocalDictionaryTerm>,
}

impl TermIdMaps {
    /// The terms with their ids.
    pub closed spec fn terms(&self) -> Map<TermBytes, i64> {
        with_entries_terms(Map::empty(), pairs(self.by_term@))
    }

    /// The ids with their terms.
    pub closed spec fn ids(&self) -> Map<i64, TermBytes> {
        self.by_id@.map_values(|t: LocalDictionaryTerm| t.bytes_view())
    }

    /// The term list holds one entry per term.
    pub closed spec fn wf(&self) -> bool {
        unique_terms(pairs(self.by_term@))
    }

    /// Empty maps.
    pub fn new() -> (r: Self)
        ensures
            r.wf(),
            r.terms() == Map::<TermBytes, i64>::empty(),
            r.ids() == Map::<i64, TermBytes>::empty(),
    {
        let r = TermIdMaps { by_term: Vec::new(), by_id: BTreeMap::new() };
        assert(pairs(r.by_term@) =~= Seq::<(i64, TermBytes)>::empty());
        assert(r.ids() =~= Map::<i64, TermBytes>::empty());
        r
    }

    /// The id of a term, if any.
    pub fn id_of(&self, t: &LocalDictionaryTerm) -> (r: Option<i64>)
        requires
            self.wf(),
        ensures
            r == (if self.terms().dom().contains(t.bytes_view()) {
                Some(self.terms()[t.bytes_view()])
            } else {
                None
            }),
    {
        match self.find_term(t) {
            Some(k) => {
                proof {
                    lemma_terms_lookup(Map::empty(), pairs(self.by_term@), k as int);
                }
                Some(self.by_term[k].id)
            },
            None => None,
        }
    }

    /// The term of an id, if any.
    pub fn term_of(&self, id: i64) -> (r: Option<LocalDictionaryTerm>)
        requires
            self.wf(),
        ensures
            r is Some <==> self.ids().dom().contains(id),
            r matches Some(t) ==> t.bytes_view() == self.ids()[id],
    {
        proof {
            lemma_ids_are_ordered();
        }
        match self.by_id.get(&id) {
            Some(t) => Some(copy_term(t)),
            None => None,
        }
    }

    /// Where the term's entry is in the term list.
    fn find_term(&self, t: &LocalDictionaryTerm) -> (r: Option<usize>)
        ensures
            r matches Some(k) ==> k < self.by_term@.len() && self.by_term@[k as int].term.bytes_view()
                == t.bytes_view(),
            r is None ==> !self.terms().dom().contains(t.bytes_view()),
    {
        let mut k: usize = 0;
        while k < self.by_term.len()
            invariant
                k <= self.by_term@.len(),
                forall|j: int| 0 <= j < k ==> pairs(self.by_term@)[j].1 != t.bytes_view(),
            decreases self.by_term@.len() - k,
        {
            if same_term(&self.by_term[k].term, t) {
                return Some(k);
            }
            k = k + 1;
        }
        proof {
            lemma_terms_untouched(Map::empty(), pairs(self.by_term@), t.bytes_view());
        }
        None
    }

    /// Records an entry in both maps, replacing what they held under its term and id.
    pub fn insert(&mut self, id: i64, t: &LocalDictionaryTerm)
        requires
            old(self).wf(),
        ensures
            final(self).wf(),
            final(self).terms() == old(self).terms().insert(t.bytes_view(), id),
            final(self).ids() == old(self).ids().insert(id, t.bytes_view()),
    {
        let ghost tb = t.bytes_view();
        match self.find_term(t) {
            Some(k) => {
                let ghost before = pairs(self.by_term@);
                proof {
                    lemma_terms_update(Map::empty(), before, k as int, id);
                }
                self.by_term.set(k, PendingEntry { id, term: copy_term(t) });
                assert(pairs(self.by_term@) =~= before.update(k as int, (id, tb)));
            },
            None => {
                let ghost before = pairs(self.by_term@);
                proof {
                    assert forall|j: int| 0 <= j < before.len() implies before[j].1 != tb by {
                        if before[j].1 == tb {
                            lemma_terms_present(Map::empty(), before, j);
                        }
                    }
                }
                self.by_term.push(PendingEntry { id, term: copy_term(t) });
                assert(pairs(self.by_term@) =~= before.push((id, tb)));
                assert(pairs(self.by_term@).drop_last() =~= before);
            },
        }
        proof {
            lemma_ids_are_ordered();
        }
        let ghost before = self.by_id@;
        self.by_id.insert(id, copy_term(t));
        proof {
            assert(self.ids() =~= before.map_values(|x: LocalDictionaryTerm| x.bytes_view()).insert(id, tb));
        }
    }

    /// Inserts the entries in order.
    pub fn insert_all(&mut self, es: &[PendingEntry])
        requires
            old(self).wf(),
        ensures
            final(self).wf(),
            final(self).terms() == with_entries_terms(old(self).terms(), pairs(es@)),
            final(self).ids() == with_entries_ids(old(self).ids(), pairs(es@)),
    {
        let ghost t0 = self.terms();
        let ghost i0 = self.ids();
        let mut i: usize = 0;
        while i < es.len()
            invariant
                self.wf(),
                i <= es@.len(),
                self.terms() == with_entries_terms(t0, pairs(es@.take(i as int))),
                self.ids() == with_entries_ids(i0, pairs(es@.take(i as int))),
            decreases es@.len() - i,
        {
            self.insert(es[i].id, &es[i].term);
            proof {
                let prefix = pairs(es@.take(i as int + 1));
                assert(prefix.drop_last() =~= pairs(es@.take(i as int)));
                assert(prefix.last() == es@[i as int].pair());
            }
            i = i + 1;
        }
        proof {
            assert(es@.take(es@.len() as int) =~= es@);
        }
    }

    /// How many ids the id map holds.
    pub fn id_count(&self) -> (r: usize)
        requires
            self.wf(),
        ensures
            r == self.ids().dom().len(),
    {
        proof {
            lemma_ids_are_ordered();
            assert(self.ids().dom() =~= self.by_id@.dom());
        }
        self.by_id.len()
    }

    /// The ids with their terms, one entry per id.
    pub fn entries_by_id(&self) -> (r: Vec<PendingEntry>)
        requires
            self.wf(),
        ensures
            unique_ids(pairs(r@)),
            with_entries_ids(Map::empty(), pairs(r@)) == self.ids(),
    {
        let r = id_entries_in_order(&self.by_id);
        proof {
            let es = pairs(r@);
            assert forall|i: int, j: int| 0 <= i < j < es.len() implies es[i].0 != es[j].0 by {
                assert(r@[i].id < r@[j].id);
            }
            assert forall|id: i64| #[trigger] with_entries_ids(Map::empty(), es).dom().contains(id)
                <==> self.ids().dom().contains(id) by {
                if self.by_id@.contains_key(id) {
                    let i = choose|i: int| 0 <= i < r@.len() && r@[i].id == id;
                    lemma_ids_lookup(Map::empty(), es, i);
                } else if with_entries_ids(Map::empty(), es).dom().contains(id) {
                    if forall|k: int| 0 <= k < es.len() ==> es[k].0 != id {
                        lemma_ids_untouched(Map::empty(), es, id);
                    }
                }
            }
            assert forall|id: i64| #[trigger] self.ids().dom().contains(id)
                implies with_entries_ids(Map::empty(), es)[id] == self.ids()[id] by {
                let i = choose|i: int| 0 <= i < r@.len() && r@[i].id == id;
                lemma_ids_lookup(Map::empty(), es, i);
            }
            assert(with_entries_ids(Map::empty(), es) =~= self.ids());
        }
        r
    }

    /// The terms with their ids, one entry per term.
    pub fn into_entries_by_term(self) -> (r: Vec<PendingEntry>)
        requires
            self.wf(),
        ensures
            unique_terms(pairs(r@)),
            with_entries_terms(Map::empty(), pairs(r@)) == self.terms(),
    {
        self.by_term
    }
}

/// Ids are ordered as the id map needs.
proof fn lemma_ids_are_ordered()
    ensures
        vstd::laws_cmp::obeys_cmp::<i64>(),
{
    broadcast use vstd::laws_cmp::group_laws_cmp;

}

/// In an increasing sequence of ids, an earlier id is smaller.
proof fn lemma_increasing_ids(ks: Seq<i64>, i: int, j: int)
    requires
        vstd::std_specs::btree::increasing_seq(ks),
        0 <= i < j < ks.len(),
    ensures
        ks[i] < ks[j],
{
    broadcast use vstd::std_specs::btree::group_btree_axioms;

    lemma_ids_are_ordered();
    assert(ks[i].cmp_spec(&ks[j]) is Less);
}

/// The entries of an id map, in increasing order of their ids.
fn id_entries_in_order(m: &BTreeMap<i64, LocalDictionaryTerm>) -> (r: Vec<PendingEntry>)
    ensures
        forall|i: int| 0 <= i < r@.len() ==> m@.contains_key(#[trigger] r@[i].id)
            && m@[r@[i].id].bytes_view() == r@[i].term.bytes_view(),
        forall|id: i64| #[trigger] m@.contains_key(id) ==> exists|i: int| 0 <= i < r@.len() && r@[i].id == id,
        forall|i: int, j: int| 0 <= i < j < r@.len() ==> (#[trigger] r@[i]).id < (#[trigger] r@[j]).id,
{
    broadcast use vstd::std_specs::btree::group_btree_axioms;

    proof {
        lemma_ids_are_ordered();
    }
    let mut out: Vec<PendingEntry> = Vec::new();
    for kv in it: m.iter()
        invariant
            out@.len() == it.index(),
            it.seq() == m.iter().remaining(),
            forall|i: int| 0 <= i < out@.len() ==> out@[i].id == *it.seq()[i].0
                && out@[i].term.bytes_view() == (*it.seq()[i].1).bytes_view(),
    {
        out.push(PendingEntry { id: *kv.0, term: copy_term(kv.1) });
    }
    proof {
        let v = m.iter().remaining();
        let ks = v.map_values(|kv: (&i64, &LocalDictionaryTerm)| *kv.0);
        assert(vstd::std_specs::btree::increasing_seq(ks));
        assert forall|i: int, j: int| 0 <= i < j < out@.len() implies (#[trigger] out@[i]).id < (#[trigger] out@[j]).id by {
            assert(ks[i] == out@[i].id);
            assert(ks[j] == out@[j].id);
            lemma_increasing_ids(ks, i, j);
        }
        assert forall|id: i64| #[trigger] m@.contains_key(id) implies exists|i: int| 0 <= i < out@.len() && out@[i].id == id by {
            assert(v.contains((&id, &m@[id])));
            let i = choose|i: int| 0 <= i < v.len() && v[i] == (&id, &m@[id]);
            assert(out@[i].id == id);
        }
    }
    out
}

/// A transaction of the local object id dictionary: its claim bookkeeping and the terms it
/// assigned ids to (or recorded from the global dictionary) that are not committed yet.
pub struct LocalTransaction<C> {
    claim: TransactionClaim<C>,
    pending: TermIdMaps,
}

impl<C: ObjectIdClaimer> LocalTransaction<C> {
    /// The pending terms with their ids.
    pub closed spec fn pending_terms(&self) -> Map<TermBytes, i64> {
        self.pending.terms()
    }

    /// The pending ids with their terms.
    pub closed spec fn pending_ids(&self) -> Map<i64, TermBytes> {
        self.pending.ids()
    }

    /// The claim ids are handed out of.
    pub closed spec fn current(&self) -> Option<(i64, i64)> {
        self.claim.current()
    }

    /// The claim to restore when the transaction is not committed.
    pub closed spec fn reset_state(&self) -> Option<(i64, i64)> {
        self.claim.reset_state()
    }

    /// The pending maps hold one entry per key.
    pub closed spec fn wf(&self) -> bool {
        self.pending.wf()
    }

    /// Starts a transaction with the claim loaded from the dictionary.
    pub fn new(initial_claim: Option<(i64, i64)>, claimer: Option<C>) -> (r: Self)
        ensures
            r.wf(),
            r.pending_terms() == Map::<TermBytes, i64>::empty(),
            r.pending_ids() == Map::<i64, TermBytes>::empty(),
            r.current() == initial_claim,
            r.reset_state() == initial_claim,
    {
        LocalTransaction { claim: TransactionClaim::new(initial_claim, claimer), pending: TermIdMaps::new() }
    }

    /// The pending id of a term, if any.
    pub fn pending_id_of(&self, t: &LocalDictionaryTerm) -> (r: Option<i64>)
        requires
            self.wf(),
        ensures
            r == (if self.pending_terms().dom().contains(t.bytes_view()) {
                Some(self.pending_terms()[t.bytes_view()])
            } else {
                None
            }),
    {
        self.pending.id_of(t)
    }

    /// Encodes an array of terms to object ids. A null row stays null, a row with the term of
    /// the last non-null row before it gets that row's id, and any other row gets the id the
    /// committed dictionary holds for its term, else the id pending in this transaction, else a
    /// new id from the claim, which becomes pending for the term. A failure to get a new id ends
    /// the encoding with that error, keeping the ids handed out before it pending.
    pub fn encode_array(&mut self, rows: &[Option<TermLookup>]) -> (r: Result<
        Vec<Option<i64>>,
        LocalObjectIdError,
    >)
        requires
            old(self).wf(),
        ensures
            final(self).wf(),
            forall|t: TermBytes|
                #![trigger old(self).pending_terms().dom().contains(t)]
                old(self).pending_terms().dom().contains(t) ==> final(self).pending_terms().dom().contains(t)
                    && final(self).pending_terms()[t] == old(self).pending_terms()[t],
            ({
                let nt = new_terms(old(self).pending_terms(), rows_view(rows@), rows@.len() as int);
                let es = assigned(nt, final(self).pending_terms());
                match r {
                    Ok(out) => {
                        &&& out@.len() == rows@.len()
                        &&& forall|i: int|
                            0 <= i < rows@.len() ==> row_encoded(
                                rows_view(rows@),
                                out@,
                                final(self).pending_terms(),
                                i,
                            )
                        &&& final(self).pending_terms() == with_entries_terms(
                            old(self).pending_terms(),
                            es,
                        )
                        &&& final(self).pending_ids() == with_entries_ids(
                            old(self).pending_ids(),
                            es,
                        )
                    },
                    Err(_) => exists|m: int|
                        0 <= m <= nt.len() && final(self).pending_terms() == with_entries_terms(
                            old(self).pending_terms(),
                            assigned(nt.take(m), final(self).pending_terms()),
                        ) && final(self).pending_ids() == with_entries_ids(
                            old(self).pending_ids(),
                            assigned(nt.take(m), final(self).pending_terms()),
                        ),
                }
            }),
            ({
                let nt = new_terms(old(self).pending_terms(), rows_view(rows@), rows@.len() as int);
                let ids = taken_ids(old(self).current(), nt.len());
                ids.len() == nt.len() ==> {
                    &&& r is Ok
                    &&& forall|k: int|
                        0 <= k < nt.len() ==> final(self).pending_terms()[nt[k]] == ids[k]
                    &&& final(self).current() == taken_claim(old(self).current(), nt.len())
                    &&& final(self).reset_state() == old(self).reset_state()
                }
            }),
    {
        let ghost p0 = self.pending_terms();
        let ghost ids0 = self.pending_ids();
        let ghost c0 = self.current();
        let ghost reset0 = self.reset_state();
        let ghost nt_all = new_terms(p0, rows_view(rows@), rows@.len() as int);
        let ghost total = nt_all.len();
        let ghost suffices = taken_ids(c0, total).len() == total;
        let ghost mut nt: Seq<TermBytes> = seq![];
        let mut out: Vec<Option<i64>> = Vec::new();
        let mut last: Option<usize> = None;
        let mut last_id: i64 = 0;
        let mut i: usize = 0;
        assert(assigned(nt, self.pending_terms()) =~= Seq::<(i64, TermBytes)>::empty());
        while i < rows.len()
            invariant
                self.wf(),
                p0 == old(self).pending_terms(),
                ids0 == old(self).pending_ids(),
                c0 == old(self).current(),
                reset0 == old(self).reset_state(),
                i <= rows@.len(),
                out@.len() == i,
                nt == new_terms(p0, rows_view(rows@), i as int),
                nt_all == new_terms(p0, rows_view(rows@), rows@.len() as int),
                total == nt_all.len(),
                suffices == (taken_ids(c0, total).len() == total),
                self.pending_terms() == with_entries_terms(p0, assigned(nt, self.pending_terms())),
                self.pending_ids() == with_entries_ids(ids0, assigned(nt, self.pending_terms())),
                forall|j: int| 0 <= j < i ==> row_encoded(rows_view(rows@), out@, self.pending_terms(), j),
                forall|t: TermBytes|
                    #![trigger p0.dom().contains(t)]
                    p0.dom().contains(t) ==> self.pending_terms().dom().contains(t)
                        && self.pending_terms()[t] == p0[t],
                match last {
                    Some(j) => j < i && j == prev_row(rows_view(rows@), i as int) && rows@[j as int] is Some
                        && out@[j as int] == Some(last_id),
                    None => prev_row(rows_view(rows@), i as int) == -1,
                },
                suffices ==> {
                    &&& forall|k: int|
                        0 <= k < nt.len() ==> self.pending_terms()[nt[k]] == taken_ids(c0, total)[k]
                    &&& self.current() == taken_claim(c0, nt.len())
                    &&& self.reset_state() == reset0
                },
            decreases rows@.len() - i,
        {
            let ghost out0 = out@;
            proof {
                lemma_new_terms_prefix(p0, rows_view(rows@), i as int, rows@.len() as int);
                lemma_new_terms_prefix(p0, rows_view(rows@), i as int + 1, rows@.len() as int);
            }
            match &rows[i] {
                None => {
                    out.push(None);
                },
                Some(row) => {
                    let repeat = match last {
                        Some(j) => match &rows[j] {
                            Some(prev) => same_term(&prev.term, &row.term),
                            None => false,
                        },
                        None => false,
                    };
                    if repeat {
                        out.push(Some(last_id));
                    } else {
                        let id = match row.committed_id {
                            Some(c) => c,
                            None => match self.pending.id_of(&row.term) {
                                Some(p) => {
                                    proof {
                                        lemma_assigned_dom(p0, nt, self.pending_terms(), row.term.bytes_view());
                                    }
                                    p
                                },
                                None => {
                                    let ghost t = row.term.bytes_view();
                                    let ghost before = self.pending_terms();
                                    proof {
                                        lemma_assigned_dom(p0, nt, before, t);
                                        assert(!is_repeat(rows_view(rows@), i as int));
                                        assert(needs_new_id(p0, nt, rows_view(rows@), i as int));
                                        assert(new_terms(p0, rows_view(rows@), i as int + 1) == nt.push(t));
                                        assert(nt.len() < total);
                                        if suffices {
                                            lemma_taken_step(c0, nt.len(), total);
                                        }
                                    }
                                    let res = self.claim.acquire_next_id();
                                    match res {
                                        Err(e) => {
                                            proof {
                                                assert(nt =~= nt_all.take(nt.len() as int));
                                                let m = nt.len() as int;
                                                assert(0 <= m <= nt_all.len());
                                                assert(self.pending_terms() == with_entries_terms(
                                                    p0,
                                                    assigned(nt_all.take(m), self.pending_terms()),
                                                ));
                                                assert(self.pending_ids() == with_entries_ids(
                                                    ids0,
                                                    assigned(nt_all.take(m), self.pending_terms()),
                                                ));
                                                assert(!suffices);
                                            }
                                            return Err(e);
                                        },
                                        Ok(next) => {
                                            let new_id = next.id;
                                            self.pending.insert(new_id, &row.term);
                                            proof {
                                                let after = self.pending_terms();
                                                assert forall|k: int| 0 <= k < nt.len() implies nt[k]
                                                    != t by {
                                                    assert(nt.contains(nt[k]));
                                                }
                                                assert(assigned(nt.push(t), after) =~= assigned(
                                                    nt,
                                                    before,
                                                ).push((new_id, t)));
                                                assert(assigned(nt.push(t), after).drop_last()
                                                    =~= assigned(nt, before));
                                                assert forall|j: int|
                                                    0 <= j < i implies row_encoded(
                                                    rows_view(rows@),
                                                    out@,
                                                    after,
                                                    j,
                                                ) by {
                                                    assert(row_encoded(rows_view(rows@), out@, before, j));
                                                }
                                                nt = nt.push(t);
                                            }
                                            new_id
                                        },
                                    }
                                },
                            },
                        };
                        out.push(Some(id));
                        last_id = id;
                    }
                    last = Some(i);
                },
            }
            proof {
                assert forall|j: int| 0 <= j < i + 1 implies row_encoded(
                    rows_view(rows@),
                    out@,
                    self.pending_terms(),
                    j,
                ) by {
                    if j < i {
                        assert(out@.take(i as int) =~= out0);
                        assert(row_encoded(rows_view(rows@), out0, self.pending_terms(), j));
                        if rows@[j] is Some && is_repeat(rows_view(rows@), j) {
                            lemma_prev_row_below(rows_view(rows@), j);
                        }
                    }
                }
            }
            i = i + 1;
        }
        Ok(out)
    }

    /// Records a batch of the global dictionary: each entry becomes pending (replacing what the
    /// maps held under its term and id), and when the batch's ids reach into the claim, the
    /// claim moves past them and becomes the claim to restore.
    pub fn add_global_batch(&mut self, batch: &[PendingEntry])
        requires
            old(self).wf(),
        ensures
            final(self).wf(),
            final(self).pending_terms() == with_entries_terms(old(self).pending_terms(), pairs(batch@)),
            final(self).pending_ids() == with_entries_ids(old(self).pending_ids(), pairs(batch@)),
            match claim_after_ids(old(self).current(), entry_ids(batch@)) {
                Some(c) => final(self).current() == c && final(self).reset_state() == c,
                None => final(self).current() == old(self).current() && final(self).reset_state()
                    == old(self).reset_state(),
            },
    {
        self.pending.insert_all(batch);
        let mut ids: Vec<i64> = Vec::new();
        let mut i: usize = 0;
        while i < batch.len()
            invariant
                i <= batch@.len(),
                ids@ == entry_ids(batch@.take(i as int)),
            decreases batch@.len() - i,
        {
            ids.push(batch[i].id);
            proof {
                assert(entry_ids(batch@.take(i as int + 1)) =~= entry_ids(batch@.take(i as int)).push(
                    batch@[i as int].id,
                ));
            }
            i = i + 1;
        }
        proof {
            assert(batch@.take(batch@.len() as int) =~= batch@);
        }
        self.claim.add_global_ids(&ids);
    }

    /// Commits at a log version: what the dictionary writes, namely each pending term with its
    /// id (into both of its tables), the synced version and the claim that is left.
    pub fn commit(self, delta_version: u64) -> (r: DictionaryCommit)
        requires
            self.wf(),
        ensures
            unique_terms(pairs(r.entries@)),
            with_entries_terms(Map::empty(), pairs(r.entries@)) == self.pending_terms(),
            r.synced_version == delta_version,
            r.claim == self.current(),
    {
        let claim = self.claim.claim_to_commit();
        DictionaryCommit { entries: self.pending.into_entries_by_term(), synced_version: delta_version, claim }
    }

    /// Aborts: the claim to write back (and to hand ids out of again) is the one to restore.
    pub fn abort(self) -> (r: Option<(i64, i64)>)
        ensures
            r == self.reset_state(),
    {
        let mut claim = self.claim;
        claim.abort()
    }

    /// The pending ids with their terms, one entry per id (what is written to the global
    /// dictionary).
    pub fn pending_id_entries(&self) -> (r: Vec<PendingEntry>)
        requires
            self.wf(),
        ensures
            unique_ids(pairs(r@)),
            with_entries_ids(Map::empty(), pairs(r@)) == self.pending_ids(),
    {
        self.pending.entries_by_id()
    }

    /// How many ids are pending.
    pub fn pending_id_count(&self) -> (r: usize)
        requires
            self.wf(),
        ensures
            r == self.pending_ids().dom().len(),
    {
        self.pending.id_count()
    }
}

/// The ids of the entries.
pub open spec fn entry_ids(es: Seq<PendingEntry>) -> Seq<i64> {
    es.map_values(|e: PendingEntry| e.id)
}

/// What a committing transaction writes to the dictionary.
#[derive(Debug)]
pub struct DictionaryCommit {
    /// The pending terms with their ids, one entry per term.
    pub entries: Vec<PendingEntry>,
    /// The log version the dictionary is then synced to.
    pub synced_version: u64,
    /// The claim left to the dictionary.
    pub claim: Option<(i64, i64)>,
}

impl DictionaryCommit {
    /// Writes the synced version and the claim into the metadata of an in-memory dictionary.
    pub fn write_metadata(&self, metadata: &mut BackendMetadata)
        ensures
            opt_chars(final(metadata).synced_version) == Some(
                digits_of(self.synced_version as nat),
            ),
            (opt_chars(final(metadata).next_free_id), opt_chars(final(metadata).last_free_id))
                == stored_claim(self.claim),
    {
        write_synced_version(metadata, self.synced_version);
        write_claim_in_memory(metadata, self.claim);
    }
}

/// A row encoding is determined by the pending terms: two results that both encode the rows
/// against the same pending terms are equal.
pub proof fn lemma_row_encoding_unique(
    rows: Seq<Option<(TermBytes, Option<i64>)>>,
    out1: Seq<Option<i64>>,
    out2: Seq<Option<i64>>,
    terms: Map<TermBytes, i64>,
)
    requires
        out1.len() == rows.len(),
        out2.len() == rows.len(),
        forall|i: int| 0 <= i < rows.len() ==> row_encoded(rows, out1, terms, i),
        forall|i: int| 0 <= i < rows.len() ==> row_encoded(rows, out2, terms, i),
    ensures
        out1 == out2,
{
    assert forall|i: int| 0 <= i < rows.len() implies out1[i] == out2[i] by {
        lemma_row_encoding_agrees(rows, out1, out2, terms, i);
    }
    assert(out1 =~= out2);
}

proof fn lemma_row_encoding_agrees(
    rows: Seq<Option<(TermBytes, Option<i64>)>>,
    out1: Seq<Option<i64>>,
    out2: Seq<Option<i64>>,
    terms: Map<TermBytes, i64>,
    i: int,
)
    requires
        0 <= i < rows.len(),
        forall|j: int| 0 <= j < rows.len() ==> row_encoded(rows, out1, terms, j),
        forall|j: int| 0 <= j < rows.len() ==> row_encoded(rows, out2, terms, j),
    ensures
        out1[i] == out2[i],
    decreases i,
{
    assert(row_encoded(rows, out1, terms, i));
    assert(row_encoded(rows, out2, terms, i));
    if rows[i] is Some && is_repeat(rows, i) {
        lemma_prev_row_below(rows, i);
        lemma_row_encoding_agrees(rows, out1, out2, terms, prev_row(rows, i));
    }
}

/// Once an array is encoded, encoding it again in the same transaction needs no new id: every
/// term it would look up is committed, pending or a repeat.
pub proof fn lemma_encoded_rows_need_no_new_ids(
    rows: Seq<Option<(TermBytes, Option<i64>)>>,
    out: Seq<Option<i64>>,
    terms: Map<TermBytes, i64>,
    k: int,
)
    requires
        0 <= k <= rows.len(),
        out.len() == rows.len(),
        forall|i: int| 0 <= i < rows.len() ==> row_encoded(rows, out, terms, i),
    ensures
        new_terms(terms, rows, k) == Seq::<TermBytes>::empty(),
    decreases k,
{
    if k > 0 {
        lemma_encoded_rows_need_no_new_ids(rows, out, terms, k - 1);
        assert(row_encoded(rows, out, terms, k - 1));
    }
}

/// Encoding the same rows twice in one transaction gives the same ids, and the second
/// encoding adds nothing to the pending terms and ids.
pub proof fn lemma_encode_twice_same(
    rows: Seq<Option<(TermBytes, Option<i64>)>>,
    out1: Seq<Option<i64>>,
    out2: Seq<Option<i64>>,
    terms: Map<TermBytes, i64>,
    ids: Map<i64, TermBytes>,
    terms2: Map<TermBytes, i64>,
)
    requires
        out1.len() == rows.len(),
        forall|i: int| 0 <= i < rows.len() ==> row_encoded(rows, out1, terms, i),
        out2.len() == rows.len(),
        forall|i: int| 0 <= i < rows.len() ==> row_encoded(rows, out2, terms2, i),
        terms2 == with_entries_terms(
            terms,
            assigned(new_terms(terms, rows, rows.len() as int), terms2),
        ),
    ensures
        new_terms(terms, rows, rows.len() as int) == Seq::<TermBytes>::empty(),
        terms2 == terms,
        with_entries_ids(ids, assigned(new_terms(terms, rows, rows.len() as int), terms2)) == ids,
        out2 == out1,
{
    lemma_encoded_rows_need_no_new_ids(rows, out1, terms, rows.len() as int);
    let es = assigned(new_terms(terms, rows, rows.len() as int), terms2);
    assert(es.len() == 0);
    lemma_row_encoding_unique(rows, out1, out2, terms);
}

/// An object id to resolve, with the term the committed dictionary holds for it (as looked up
/// in its tables or cache).
#[derive(Debug)]
pub struct IdLookup {
    pub id: i64,
    pub term: Option<LocalDictionaryTerm>,
}

/// Row `i` has the id of the last non-null row before it.
pub open spec fn is_repeated_id(rows: Seq<Option<IdLookup>>, i: int) -> bool {
    prev_row(rows, i) >= 0 && rows[prev_row(rows, i)].unwrap().id == rows[i].unwrap().id
}

/// Row `i` is an id that must be looked up and is not in the dictionary.
pub open spec fn is_missing(rows: Seq<Option<IdLookup>>, i: int) -> bool {
    &&& rows[i] is Some
    &&& !is_repeated_id(rows, i)
    &&& rows[i].unwrap().term is None
}

/// What row `i` resolves to: nothing for a null row, the term of the previous row for a
/// repeated id, else the term found for the id.
pub open spec fn row_resolved(
    rows: Seq<Option<IdLookup>>,
    out: Seq<Option<LocalDictionaryTerm>>,
    i: int,
) -> bool {
    match rows[i] {
        None => out[i] is None,
        Some(l) => if is_repeated_id(rows, i) {
            out[i] matches Some(t) && out[prev_row(rows, i)] matches Some(p) && t.bytes_view()
                == p.bytes_view()
        } else {
            out[i] matches Some(t) && l.term matches Some(found) && t.bytes_view()
                == found.bytes_view()
        },
    }
}

/// Resolves object ids to their terms. A null row stays null, a row with the id of the last
/// non-null row before it gets that row's term, and any other row gets the term found for its
/// id; the first id that is not found fails the resolution with `NotFound`.
pub fn resolve_plain_terms(rows: &[Option<IdLookup>]) -> (r: Result<
    Vec<Option<LocalDictionaryTerm>>,
    LocalObjectIdError,
>)
    ensures
        r is Ok <==> forall|i: int| 0 <= i < rows@.len() ==> !is_missing(rows@, i),
        r matches Ok(out) ==> out@.len() == rows@.len() && forall|i: int|
            0 <= i < rows@.len() ==> row_resolved(rows@, out@, i),
        r matches Err(e) ==> exists|f: int|
            0 <= f < rows@.len() && is_missing(rows@, f) && (forall|j: int|
                0 <= j < f ==> !is_missing(rows@, j)) && e == LocalObjectIdError::NotFound(
                rows@[f].unwrap().id,
            ),
{
    let mut out: Vec<Option<LocalDictionaryTerm>> = Vec::new();
    let mut last: Option<usize> = None;
    let mut i: usize = 0;
    while i < rows.len()
        invariant
            i <= rows@.len(),
            out@.len() == i,
            forall|j: int| 0 <= j < i ==> !is_missing(rows@, j),
            forall|j: int| 0 <= j < i ==> row_resolved(rows@, out@, j),
            match last {
                Some(j) => j < i && j == prev_row(rows@, i as int) && rows@[j as int] is Some
                    && out@[j as int] is Some,
                None => prev_row(rows@, i as int) == -1,
            },
        decreases rows@.len() - i,
    {
        let ghost out0 = out@;
        match &rows[i] {
            None => {
                out.push(None);
            },
            Some(row) => {
                let repeated = match last {
                    Some(j) => match (&rows[j], &out[j]) {
                        (Some(prev), Some(term)) => if prev.id == row.id {
                            Some(copy_term(term))
                        } else {
                            None
                        },
                        _ => None,
                    },
                    None => None,
                };
                match repeated {
                    Some(term) => {
                        out.push(Some(term));
                    },
                    None => match &row.term {
                        Some(found) => {
                            out.push(Some(copy_term(found)));
                        },
                        None => {
                            proof {
                                assert(is_missing(rows@, i as int));
                            }
                            return Err(LocalObjectIdError::NotFound(row.id));
                        },
                    },
                }
                last = Some(i);
            },
        }
        proof {
            assert forall|j: int| 0 <= j < i + 1 implies row_resolved(rows@, out@, j) by {
                if j < i {
                    assert(out@.take(i as int) =~= out0);
                    assert(row_resolved(rows@, out0, j));
                    if rows@[j] is Some && is_repeated_id(rows@, j) {
                        lemma_prev_row_below(rows@, j);
                    }
                }
            }
        }
        i = i + 1;
    }
    Ok(out)
}

} // verus!

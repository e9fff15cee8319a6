//! The in-memory object id mapping: terms are interned (short strings inline, longer ones by
//! id) and numbered densely from zero in the order in which they are first seen.

use crate::term::{str_from_utf8, LocalDictionaryTerm, TermBytes};
use std::sync::Arc;
use vstd::prelude::*;
use vstd::string::StringSliceAdditionalSpecFns;

verus! {

/// The longest string, in bytes, that is stored inline.
pub const SMALL_STRING_SIZE: usize = 14;

/// An interned string: stored inline when short, else by the id the interner gave it.
#[derive(Debug, Clone, Copy, PartialEq, Eq, Hash)]
pub enum InternedStr {
    Small { len: u8, bytes: [u8; SMALL_STRING_SIZE] },
    Interned(u64),
}

/// Whether an interned string holds the bytes `b` inline, padded with zeros.
pub open spec fn holds_small(i: InternedStr, b: Seq<u8>) -> bool {
    &&& b.len() <= SMALL_STRING_SIZE
    &&& i matches InternedStr::Small { len, bytes } && len == b.len() && forall|k: int|
        0 <= k < SMALL_STRING_SIZE ==> #[trigger] bytes@[k] == (if k < b.len() {
            b[k]
        } else {
            0u8
        })
}

/// Two interned strings that hold the same bytes inline are the same.
pub proof fn lemma_holds_small_unique(i1: InternedStr, i2: InternedStr, b: Seq<u8>)
    requires
        holds_small(i1, b),
        holds_small(i2, b),
    ensures
        i1 == i2,
{
    broadcast use vstd::array::group_array_axioms;

    if let (InternedStr::Small { len: l1, bytes: b1 }, InternedStr::Small { len: l2, bytes: b2 }) = (i1, i2) {
        assert(b1 =~= b2) by {
            assert forall|k: int| 0 <= k < SMALL_STRING_SIZE implies b1[k] == b2[k] by {
                assert(b1@[k] == b2@[k]);
            }
        }
    }
}

impl InternedStr {
    /// Stores a short string inline.
    pub fn new_small(s: &str) -> (r: Self)
        requires
            s.spec_bytes().len() <= SMALL_STRING_SIZE,
        ensures
            holds_small(r, s.spec_bytes()),
    {
        let b = s.as_bytes();
        let mut bytes = [0u8; SMALL_STRING_SIZE];
        let mut i: usize = 0;
        while i < b.len()
            invariant
                b@ == s.spec_bytes(),
                b.len() <= SMALL_STRING_SIZE,
                i <= b.len(),
                forall|k: int| 0 <= k < SMALL_STRING_SIZE ==> #[trigger] bytes@[k] == (if k < i {
                    b@[k]
                } else {
                    0u8
                }),
            decreases b.len() - i,
        {
            bytes[i] = b[i];
            i = i + 1;
        }
        InternedStr::Small { len: b.len() as u8, bytes }
    }
}

/// The strings of an interner keyed by their bytes.
#[verifier::external_body]
pub struct StrIdMap {
    map: hashbrown::HashMap<Arc<str>, u64, ahash::RandomState>,
}

/// What a [`StrIdMap`] holds: the id of each string, keyed by the string's bytes.
pub uninterp spec fn str_id_entries(m: StrIdMap) -> Map<Seq<u8>, u64>;

/// Creates an empty `hashbrown::HashMap` with an `ahash::RandomState` hasher; it holds nothing.
#[verifier::external_body]
fn str_id_map_new() -> (r: StrIdMap)
    ensures
        str_id_entries(r).dom().is_empty(),
{
    StrIdMap { map: hashbrown::HashMap::with_hasher(ahash::RandomState::new()) }
}

/// `hashbrown::HashMap::get`: the id kept under the string, if any.
#[verifier::external_body]
fn str_id_map_get(m: &StrIdMap, s: &str) -> (r: Option<u64>)
    ensures
        r == (if str_id_entries(*m).dom().contains(s.spec_bytes()) {
            Some(str_id_entries(*m)[s.spec_bytes()])
        } else {
            None
        }),
{
    m.map.get(s).copied()
}

/// `hashbrown::HashMap::insert`: keeps the id under the string, replacing any earlier one.
#[verifier::external_body]
fn str_id_map_insert(m: &mut StrIdMap, s: &str, id: u64)
    ensures
        str_id_entries(*final(m)) == str_id_entries(*old(m)).insert(s.spec_bytes(), id),
{
    m.map.insert(Arc::from(s), id);
}

/// The strings of an interner keyed by their ids.
#[verifier::external_body]
pub struct IdStrMap {
    map: hashbrown::HashMap<u64, Arc<str>, ahash::RandomState>,
}

/// What an [`IdStrMap`] holds: the bytes of each string, keyed by its id.
pub uninterp spec fn id_str_entries(m: IdStrMap) -> Map<u64, Seq<u8>>;

/// Creates an empty `hashbrown::HashMap` with an `ahash::RandomState` hasher; it holds nothing.
#[verifier::external_body]
fn id_str_map_new() -> (r: IdStrMap)
    ensures
        id_str_entries(r).dom().is_empty(),
{
    IdStrMap { map: hashbrown::HashMap::with_hasher(ahash::RandomState::new()) }
}

/// `hashbrown::HashMap::get`: the string kept under the id, if any.
#[verifier::external_body]
fn id_str_map_get(m: &IdStrMap, id: u64) -> (r: Option<&str>)
    ensures
        r is Some <==> id_str_entries(*m).dom().contains(id),
        r matches Some(s) ==> s.spec_bytes() == id_str_entries(*m)[id],
{
    match m.map.get(&id) {
        Some(s) => Some(&**s),
        None => None,
    }
}

/// `hashbrown::HashMap::insert`: keeps the string under the id, replacing any earlier one.
#[verifier::external_body]
fn id_str_map_insert(m: &mut IdStrMap, id: u64, s: &str)
    ensures
        id_str_entries(*final(m)) == id_str_entries(*old(m)).insert(id, s.spec_bytes()),
{
    m.map.insert(id, Arc::from(s));
}

/// The first `k` bytes of `b` in an array of zeros.
pub open spec fn small_array(b: Seq<u8>, k: nat) -> [u8; SMALL_STRING_SIZE]
    decreases k,
{
    if k == 0 {
        vstd::array::spec_array_fill_for_copy_type::<u8, SMALL_STRING_SIZE>(0u8)
    } else {
        vstd::array::spec_array_update(small_array(b, (k - 1) as nat), k - 1, b[k - 1])
    }
}

/// A short string stored inline.
pub open spec fn small_of(b: Seq<u8>) -> InternedStr {
    InternedStr::Small { len: b.len() as u8, bytes: small_array(b, b.len()) }
}

proof fn lemma_small_array(b: Seq<u8>, k: nat)
    requires
        k <= b.len() <= SMALL_STRING_SIZE,
    ensures
        forall|j: int| 0 <= j < SMALL_STRING_SIZE ==> #[trigger] small_array(b, k)@[j] == (if j < k {
            b[j]
        } else {
            0u8
        }),
    decreases k,
{
    broadcast use vstd::array::group_array_axioms;

    if k > 0 {
        lemma_small_array(b, (k - 1) as nat);
        let prev = small_array(b, (k - 1) as nat);
        assert(small_array(b, k)@ == prev@.update(k - 1, b[k - 1]));
    } else {
        let z = vstd::array::spec_array_fill_for_copy_type::<u8, SMALL_STRING_SIZE>(0u8);
        assert(forall|j: int| 0 <= j < SMALL_STRING_SIZE ==> z.view()[j] == 0u8);
    }
}

/// A short string is held inline by its inline form.
pub proof fn lemma_small_of(b: Seq<u8>)
    requires
        b.len() <= SMALL_STRING_SIZE,
    ensures
        holds_small(small_of(b), b),
{
    lemma_small_array(b, b.len());
}

/// The interned form of a string's bytes under the given interned ids: inline when short,
/// by id when long and interned, `None` when long and not interned.
pub open spec fn intern_key(b: Seq<u8>, ids: Map<Seq<u8>, u64>) -> Option<InternedStr> {
    if b.len() <= SMALL_STRING_SIZE {
        Some(small_of(b))
    } else if ids.dom().contains(b) {
        Some(InternedStr::Interned(ids[b]))
    } else {
        None
    }
}

/// The bytes an interned string stands for under the given strings.
pub open spec fn interned_bytes(i: InternedStr, strs: Map<u64, Seq<u8>>) -> Seq<u8> {
    match i {
        InternedStr::Small { len, bytes } => bytes@.subrange(0, len as int),
        InternedStr::Interned(id) => strs[id],
    }
}

/// Deduplicates strings: short ones are kept inline, longer ones get ids counted from zero.
pub struct StringInterner {
    str_to_id: StrIdMap,
    id_to_str: IdStrMap,
    next_id: u64,
}

impl StringInterner {
    /// The interned strings, keyed by id.
    pub closed spec fn strings(&self) -> Map<u64, Seq<u8>> {
        id_str_entries(self.id_to_str)
    }

    /// The ids of the interned strings, keyed by their bytes.
    pub closed spec fn ids(&self) -> Map<Seq<u8>, u64> {
        str_id_entries(self.str_to_id)
    }

    /// The number of interned strings.
    pub closed spec fn count(&self) -> nat {
        self.next_id as nat
    }

    /// The two maps are inverse to each other, ids are dense below the count, and only long,
    /// valid UTF-8 strings are interned.
    pub closed spec fn wf(&self) -> bool {
        &&& forall|b: Seq<u8>| #[trigger]
            self.ids().dom().contains(b) ==> self.ids()[b] < self.next_id
                && self.strings().dom().contains(self.ids()[b]) && self.strings()[self.ids()[b]] == b
        &&& forall|id: u64| #[trigger]
            self.strings().dom().contains(id) ==> id < self.next_id && self.ids().dom().contains(
                self.strings()[id],
            ) && self.ids()[self.strings()[id]] == id && self.strings()[id].len()
                > SMALL_STRING_SIZE && vstd::utf8::valid_utf8(self.strings()[id])
        &&& forall|id: u64| id < self.next_id ==> #[trigger] self.strings().dom().contains(id)
    }

    /// Creates an empty interner.
    pub fn new() -> (r: Self)
        ensures
            r.wf(),
            r.count() == 0,
            r.ids().dom().is_empty(),
    {
        StringInterner { str_to_id: str_id_map_new(), id_to_str: id_str_map_new(), next_id: 0 }
    }

    /// The interned form of a string, interning it when it is long and new.
    pub fn get_or_intern(&mut self, s: &str) -> (r: InternedStr)
        requires
            old(self).wf(),
            intern_key(s.spec_bytes(), old(self).ids()) is None ==> old(self).count() < u64::MAX,
        ensures
            final(self).wf(),
            intern_key(s.spec_bytes(), old(self).ids()) is Some ==> *final(self) == *old(self),
            intern_key(s.spec_bytes(), final(self).ids()) == Some(r),
            interned_bytes(r, final(self).strings()) == s.spec_bytes(),
            final(self).count() <= old(self).count() + 1,
            forall|b: Seq<u8>| #[trigger] old(self).ids().dom().contains(b) ==> final(self).ids().dom().contains(b)
                && final(self).ids()[b] == old(self).ids()[b],
            forall|id: u64| #[trigger] old(self).strings().dom().contains(id) ==> final(self).strings().dom().contains(id)
                && final(self).strings()[id] == old(self).strings()[id],
    {
        let b = s.as_bytes();
        if b.len() <= SMALL_STRING_SIZE {
            let r = InternedStr::new_small(s);
            proof {
                lemma_small_of(s.spec_bytes());
                lemma_holds_small_unique(r, small_of(s.spec_bytes()), s.spec_bytes());
                if let InternedStr::Small { len, bytes } = r {
                    assert(bytes@.subrange(0, len as int) =~= s.spec_bytes());
                }
            }
            return r;
        }
        if let Some(id) = str_id_map_get(&self.str_to_id, s) {
            return InternedStr::Interned(id);
        }
        let ghost old_ids = self.ids();
        let ghost old_strs = self.strings();
        let id = self.next_id;
        proof {
            assert(!old_ids.dom().contains(s.spec_bytes()));
            assert(!old_strs.dom().contains(id));
        }
        self.next_id = self.next_id + 1;
        str_id_map_insert(&mut self.str_to_id, s, id);
        id_str_map_insert(&mut self.id_to_str, id, s);
        proof {
            broadcast use vstd::utf8::encode_utf8_valid_utf8;
            assert(vstd::utf8::valid_utf8(s.spec_bytes()));
            let sb = s.spec_bytes();
            assert(self.ids() == old_ids.insert(sb, id));
            assert(self.strings() == old_strs.insert(id, sb));
            assert forall|b: Seq<u8>| #[trigger] self.ids().dom().contains(b) implies self.ids()[b]
                < self.next_id && self.strings().dom().contains(self.ids()[b]) && self.strings()[self.ids()[b]]
                == b by {
                if b != sb {
                    assert(old_ids.dom().contains(b));
                    assert(old_ids[b] != id);
                }
            }
            assert forall|i: u64| #[trigger] self.strings().dom().contains(i) implies i < self.next_id
                && self.ids().dom().contains(self.strings()[i]) && self.ids()[self.strings()[i]] == i
                && self.strings()[i].len() > SMALL_STRING_SIZE && vstd::utf8::valid_utf8(self.strings()[i]) by {
                if i != id {
                    assert(old_strs.dom().contains(i));
                    assert(old_strs[i] != sb);
                }
            }
            assert forall|i: u64| i < self.next_id implies #[trigger] self.strings().dom().contains(i) by {
                if i != id {
                    assert(old_strs.dom().contains(i));
                }
            }
        }
        InternedStr::Interned(id)
    }

    /// The interned form of a string when it is short or already interned.
    pub fn get_id(&self, s: &str) -> (r: Option<InternedStr>)
        requires
            self.wf(),
        ensures
            r == intern_key(s.spec_bytes(), self.ids()),
    {
        let b = s.as_bytes();
        if b.len() <= SMALL_STRING_SIZE {
            let r = InternedStr::new_small(s);
            proof {
                lemma_small_of(s.spec_bytes());
                lemma_holds_small_unique(r, small_of(s.spec_bytes()), s.spec_bytes());
            }
            return Some(r);
        }
        match str_id_map_get(&self.str_to_id, s) {
            Some(id) => Some(InternedStr::Interned(id)),
            None => None,
        }
    }

    /// The string an interned form stands for; `None` for an id that was not given out or for
    /// inline bytes that are not a string.
    pub fn resolve<'a>(&'a self, interned: &'a InternedStr) -> (r: Option<&'a str>)
        requires
            self.wf(),
        ensures
            match *interned {
                InternedStr::Interned(id) => (r is Some <==> self.strings().dom().contains(id))
                    && (r matches Some(t) ==> t.spec_bytes() == self.strings()[id]),
                InternedStr::Small { len, bytes } => (len <= SMALL_STRING_SIZE && vstd::utf8::valid_utf8(
                    bytes@.subrange(0, len as int),
                ) ==> r is Some) && (r matches Some(t) ==> t.spec_bytes() == bytes@.subrange(
                    0,
                    len as int,
                )),
            },
    {
        match interned {
            InternedStr::Small { len, bytes } => {
                let n = *len as usize;
                if n > SMALL_STRING_SIZE {
                    return None;
                }
                let all = vstd::array::array_as_slice(bytes);
                let part = vstd::slice::slice_subrange(all, 0, n);
                str_from_utf8(part).ok()
            },
            InternedStr::Interned(id) => id_str_map_get(&self.id_to_str, *id),
        }
    }
}

/// A term with its strings interned.
#[derive(Debug, Clone, Copy, PartialEq, Eq, Hash)]
pub struct MappedTerm {
    pub term_type: i8,
    pub value: InternedStr,
    pub data_type: Option<InternedStr>,
    pub language: Option<InternedStr>,
}

/// The interned terms of a mapping, keyed by their interned form.
#[verifier::external_body]
pub struct TermIdMap {
    map: hashbrown::HashMap<MappedTerm, i64, ahash::RandomState>,
}

/// What a [`TermIdMap`] holds: the object id of each interned term.
pub uninterp spec fn term_id_entries(m: TermIdMap) -> Map<MappedTerm, i64>;

/// Creates an empty `hashbrown::HashMap` with an `ahash::RandomState` hasher; it holds nothing.
#[verifier::external_body]
fn term_id_map_new() -> (r: TermIdMap)
    ensures
        term_id_entries(r).dom().is_empty(),
{
    TermIdMap { map: hashbrown::HashMap::with_hasher(ahash::RandomState::new()) }
}

/// `hashbrown::HashMap::get`: the object id kept under the interned term, if any.
#[verifier::external_body]
fn term_id_map_get(m: &TermIdMap, key: &MappedTerm) -> (r: Option<i64>)
    ensures
        r == (if term_id_entries(*m).dom().contains(*key) {
            Some(term_id_entries(*m)[*key])
        } else {
            None
        }),
{
    m.map.get(key).copied()
}

/// `hashbrown::HashMap::insert`: keeps the object id under the interned term, replacing any
/// earlier one.
#[verifier::external_body]
fn term_id_map_insert(m: &mut TermIdMap, key: MappedTerm, id: i64)
    ensures
        term_id_entries(*final(m)) == term_id_entries(*old(m)).insert(key, id),
{
    m.map.insert(key, id);
}

/// The interned form of an optional string: `Some(None)` when absent, `None` when it cannot
/// be formed yet.
pub open spec fn opt_intern_key(o: Option<Seq<u8>>, ids: Map<Seq<u8>, u64>) -> Option<Option<InternedStr>> {
    match o {
        None => Some(None),
        Some(b) => match intern_key(b, ids) {
            Some(i) => Some(Some(i)),
            None => None,
        },
    }
}

/// The interned form of a term under the given interned ids, when all of its strings have one.
pub open spec fn term_key(t: TermBytes, ids: Map<Seq<u8>, u64>) -> Option<MappedTerm> {
    match (intern_key(t.value, ids), opt_intern_key(t.data_type, ids), opt_intern_key(t.language, ids)) {
        (Some(v), Some(d), Some(l)) => Some(MappedTerm { term_type: t.term_type, value: v, data_type: d, language: l }),
        _ => None,
    }
}

/// The bytes an optional interned string stands for.
pub open spec fn opt_interned_bytes(o: Option<InternedStr>, strs: Map<u64, Seq<u8>>) -> Option<Seq<u8>> {
    match o {
        Some(i) => Some(interned_bytes(i, strs)),
        None => None,
    }
}

/// The term an interned term stands for.
pub open spec fn mapped_bytes(m: MappedTerm, strs: Map<u64, Seq<u8>>) -> TermBytes {
    TermBytes {
        term_type: m.term_type,
        value: interned_bytes(m.value, strs),
        data_type: opt_interned_bytes(m.data_type, strs),
        language: opt_interned_bytes(m.language, strs),
    }
}

/// Whether an interned string is in the form the interner gives: inline bytes are padded with
/// zeros and valid UTF-8; ids were given out.
pub open spec fn canonical_str(i: InternedStr, strs: Map<u64, Seq<u8>>) -> bool {
    match i {
        InternedStr::Small { len, bytes } => holds_small(i, bytes@.subrange(0, len as int))
            && vstd::utf8::valid_utf8(bytes@.subrange(0, len as int)),
        InternedStr::Interned(id) => strs.dom().contains(id),
    }
}

/// Whether every string of an interned term is in the form the interner gives.
pub open spec fn canonical_term(m: MappedTerm, strs: Map<u64, Seq<u8>>) -> bool {
    &&& canonical_str(m.value, strs)
    &&& (m.data_type matches Some(d) ==> canonical_str(d, strs))
    &&& (m.language matches Some(l) ==> canonical_str(l, strs))
}

/// The errors of the in-memory object id mapping.
#[derive(Debug, Clone, Copy, PartialEq, Eq)]
pub enum MappingError {
    /// No term has the object id.
    NotFound(i64),
    /// A loaded object id is not the next one.
    NonContiguous { expected: i64, found: i64 },
}

/// An in-memory mapping between terms and object ids, which are counted from zero in the
/// order in which terms are first seen.
pub struct ObjectIdInMemoryMapping {
    /// Deduplicates the strings of the terms.
    interner: StringInterner,
    /// The term of each object id, at the id's position.
    terms: Vec<MappedTerm>,
    /// The object id of each term.
    term_to_id: TermIdMap,
    /// The next object id to give out.
    next_id: i64,
}

impl ObjectIdInMemoryMapping {
    /// The terms, in the order of their object ids.
    pub closed spec fn terms_view(&self) -> Seq<TermBytes> {
        self.terms@.map_values(|m: MappedTerm| mapped_bytes(m, self.interner.strings()))
    }

    /// The object id that encoding the term gives now, if it has one.
    pub closed spec fn lookup(&self, t: TermBytes) -> Option<i64> {
        match term_key(t, self.interner.ids()) {
            Some(k) => if term_id_entries(self.term_to_id).dom().contains(k) {
                Some(term_id_entries(self.term_to_id)[k])
            } else {
                None
            },
            None => None,
        }
    }

    /// The number of interned strings.
    pub closed spec fn string_count(&self) -> nat {
        self.interner.count()
    }

    /// The interner is consistent, each object id has its term at its position, and the map
    /// from terms leads to a position that holds the term.
    pub closed spec fn wf(&self) -> bool {
        &&& self.interner.wf()
        &&& self.next_id == self.terms@.len()
        &&& forall|i: int| 0 <= i < self.terms@.len() ==> #[trigger] canonical_term(self.terms@[i], self.interner.strings())
        &&& forall|i: int| 0 <= i < self.terms@.len() ==> term_id_entries(self.term_to_id).dom().contains(#[trigger] self.terms@[i])
        &&& forall|k: MappedTerm| #[trigger] term_id_entries(self.term_to_id).dom().contains(k)
            ==> 0 <= term_id_entries(self.term_to_id)[k] < self.terms@.len()
            && self.terms@[term_id_entries(self.term_to_id)[k] as int] == k
    }

    /// Creates an empty mapping.
    pub fn empty() -> (r: Self)
        ensures
            r.wf(),
            r.terms_view() == Seq::<TermBytes>::empty(),
            r.string_count() == 0,
    {
        let r = ObjectIdInMemoryMapping {
            interner: StringInterner::new(),
            terms: Vec::new(),
            term_to_id: term_id_map_new(),
            next_id: 0,
        };
        assert(r.terms_view() =~= Seq::<TermBytes>::empty());
        r
    }

    /// The next object id to give out, which is the number of terms.
    pub fn next_id(&self) -> (r: i64)
        requires
            self.wf(),
        ensures
            r == self.terms_view().len(),
    {
        self.next_id
    }
}

/// The strings of `b` extend those of `a`: every id of `a` is kept with its string.
pub open spec fn strings_extend(a: Map<u64, Seq<u8>>, b: Map<u64, Seq<u8>>) -> bool {
    forall|id: u64| #[trigger] a.dom().contains(id) ==> b.dom().contains(id) && b[id] == a[id]
}

/// The interned ids of `b` extend those of `a`.
pub open spec fn ids_extend(a: Map<Seq<u8>, u64>, b: Map<Seq<u8>, u64>) -> bool {
    forall|s: Seq<u8>| #[trigger] a.dom().contains(s) ==> b.dom().contains(s) && b[s] == a[s]
}

/// An interned term in the interner's form stands for a term whose interned form is itself.
proof fn lemma_canonical_key(m: MappedTerm, interner: StringInterner)
    requires
        interner.wf(),
        canonical_term(m, interner.strings()),
    ensures
        term_key(mapped_bytes(m, interner.strings()), interner.ids()) == Some(m),
{
    lemma_canonical_str_key(m.value, interner);
    if let Some(d) = m.data_type {
        lemma_canonical_str_key(d, interner);
    }
    if let Some(l) = m.language {
        lemma_canonical_str_key(l, interner);
    }
}

proof fn lemma_canonical_str_key(i: InternedStr, interner: StringInterner)
    requires
        interner.wf(),
        canonical_str(i, interner.strings()),
    ensures
        intern_key(interned_bytes(i, interner.strings()), interner.ids()) == Some(i),
{
    let b = interned_bytes(i, interner.strings());
    match i {
        InternedStr::Small { len, bytes } => {
            assert(bytes@.subrange(0, len as int) == b);
            lemma_small_of(b);
            lemma_holds_small_unique(i, small_of(b), b);
        },
        InternedStr::Interned(id) => {
            assert(interner.strings().dom().contains(id));
        },
    }
}

/// Interned strings in the interner's form keep their form and bytes as the interner grows.
proof fn lemma_canonical_stable(m: MappedTerm, a: Map<u64, Seq<u8>>, b: Map<u64, Seq<u8>>)
    requires
        canonical_term(m, a),
        strings_extend(a, b),
    ensures
        canonical_term(m, b),
        mapped_bytes(m, b) == mapped_bytes(m, a),
{
}

/// A term's interned form stays the same as the interner grows.
proof fn lemma_term_key_stable(t: TermBytes, a: Map<Seq<u8>, u64>, b: Map<Seq<u8>, u64>)
    requires
        term_key(t, a) is Some,
        ids_extend(a, b),
    ensures
        term_key(t, b) == term_key(t, a),
{
}

impl ObjectIdInMemoryMapping {
    /// Interns the strings of a term.
    fn intern_term(&mut self, t: &LocalDictionaryTerm) -> (r: MappedTerm)
        requires
            old(self).wf(),
            term_key(t.bytes_view(), old(self).interner.ids()) is None ==> old(self).string_count() + 3 <= u64::MAX,
        ensures
            final(self).wf(),
            term_key(t.bytes_view(), old(self).interner.ids()) is Some ==> *final(self) == *old(self),
            canonical_term(r, final(self).interner.strings()),
            mapped_bytes(r, final(self).interner.strings()) == t.bytes_view(),
            term_key(t.bytes_view(), final(self).interner.ids()) == Some(r),
            final(self).terms == old(self).terms,
            final(self).term_to_id == old(self).term_to_id,
            final(self).next_id == old(self).next_id,
            strings_extend(old(self).interner.strings(), final(self).interner.strings()),
            ids_extend(old(self).interner.ids(), final(self).interner.ids()),
            final(self).string_count() <= old(self).string_count() + 3,
            final(self).terms_view() == old(self).terms_view(),
            forall|x: TermBytes| #[trigger] old(self).lookup(x) is Some ==> final(self).lookup(x) == old(self).lookup(x),
    {
        let ghost s0 = self.interner.strings();
        let ghost i0 = self.interner.ids();
        proof {
            broadcast use vstd::utf8::encode_utf8_valid_utf8;
            assert(vstd::utf8::valid_utf8(t.bytes_view().value));
            if let Some(d) = t.bytes_view().data_type {
                assert(vstd::utf8::valid_utf8(d));
            }
            if let Some(l) = t.bytes_view().language {
                assert(vstd::utf8::valid_utf8(l));
            }
        }
        let value = self.interner.get_or_intern(t.value.as_str());
        proof {
            lemma_intern_key_canonical(t.bytes_view().value, self.interner);
        }
        let ghost s1 = self.interner.strings();
        let ghost i1 = self.interner.ids();
        let data_type = match &t.data_type {
            Some(d) => {
                let x = self.interner.get_or_intern(d.as_str());
                proof {
                    lemma_intern_key_canonical(t.bytes_view().data_type->0, self.interner);
                }
                Some(x)
            },
            None => None,
        };
        let ghost s2 = self.interner.strings();
        let ghost i2 = self.interner.ids();
        let language = match &t.language {
            Some(l) => {
                let x = self.interner.get_or_intern(l.as_str());
                proof {
                    lemma_intern_key_canonical(t.bytes_view().language->0, self.interner);
                }
                Some(x)
            },
            None => None,
        };
        let r = MappedTerm { term_type: t.term_type, value, data_type, language };
        proof {
            let s3 = self.interner.strings();
            let i3 = self.interner.ids();
            assert(strings_extend(s0, s3));
            assert(ids_extend(i0, i3));
            assert(strings_extend(s1, s3));
            assert(ids_extend(i1, i3));
            assert(strings_extend(s2, s3));
            assert(ids_extend(i2, i3));
            assert(canonical_str(value, s3));
            assert(interned_bytes(value, s3) == t.bytes_view().value);
            assert(intern_key(t.bytes_view().value, i3) == Some(value));
            if let Some(d) = data_type {
                assert(canonical_str(d, s3));
                assert(interned_bytes(d, s3) == t.bytes_view().data_type->0);
                assert(intern_key(t.bytes_view().data_type->0, i3) == Some(d));
            }
            assert(mapped_bytes(r, s3) == t.bytes_view());
            assert(term_key(t.bytes_view(), i3) == Some(r));
            assert forall|i: int| 0 <= i < self.terms@.len() implies #[trigger] canonical_term(self.terms@[i], s3) by {
                lemma_canonical_stable(self.terms@[i], s0, s3);
            }
            assert(self.terms_view() =~= old(self).terms_view()) by {
                assert forall|i: int| 0 <= i < self.terms@.len() implies self.terms_view()[i] == old(self).terms_view()[i] by {
                    lemma_canonical_stable(self.terms@[i], s0, s3);
                }
            }
            assert forall|x: TermBytes| #[trigger] old(self).lookup(x) is Some implies self.lookup(x) == old(self).lookup(x) by {
                lemma_term_key_stable(x, i0, i3);
            }
        }
        r
    }
}

/// The interned form the interner gives a string is in the interner's form and stands for it.
proof fn lemma_intern_key_canonical(b: Seq<u8>, interner: StringInterner)
    requires
        interner.wf(),
        intern_key(b, interner.ids()) is Some,
        vstd::utf8::valid_utf8(b),
    ensures
        canonical_str(intern_key(b, interner.ids())->0, interner.strings()),
        interned_bytes(intern_key(b, interner.ids())->0, interner.strings()) == b,
{
    let i = intern_key(b, interner.ids())->0;
    if b.len() <= SMALL_STRING_SIZE {
        lemma_small_of(b);
        assert(holds_small(i, b));
        if let InternedStr::Small { len, bytes } = i {
            assert(bytes@.subrange(0, len as int) =~= b);
        }
    } else {
        assert(interner.ids().dom().contains(b));
    }
}

impl ObjectIdInMemoryMapping {
    /// Encodes one term: its object id, given out anew when the term was not seen before.
    pub fn encode_term(&mut self, t: &LocalDictionaryTerm) -> (id: i64)
        requires
            old(self).wf(),
            old(self).lookup(t.bytes_view()) is None ==> old(self).terms_view().len() < i64::MAX
                && old(self).string_count() + 3 <= u64::MAX,
        ensures
            final(self).wf(),
            final(self).lookup(t.bytes_view()) == Some(id),
            old(self).lookup(t.bytes_view()) is Some ==> *final(self) == *old(self),
            0 <= id < final(self).terms_view().len(),
            final(self).terms_view()[id as int] == t.bytes_view(),
            old(self).lookup(t.bytes_view()) is Some ==> old(self).lookup(t.bytes_view()) == Some(id)
                && final(self).terms_view() == old(self).terms_view(),
            old(self).lookup(t.bytes_view()) is None ==> final(self).terms_view() == old(self).terms_view().push(t.bytes_view())
                && id == old(self).terms_view().len(),
            forall|x: TermBytes| #[trigger] old(self).lookup(x) is Some ==> final(self).lookup(x) == old(self).lookup(x),
            final(self).string_count() <= old(self).string_count() + 3,
    {
        let key = self.intern_term(t);
        let ghost mid = *self;
        match term_id_map_get(&self.term_to_id, &key) {
            Some(id) => {
                proof {
                    assert(self.terms@[id as int] == key);
                    assert(self.terms_view()[id as int] == mapped_bytes(key, self.interner.strings()));
                    let m = old(self).terms@[id as int];
                    assert(m == key);
                    lemma_canonical_key(m, old(self).interner);
                    lemma_canonical_stable(m, old(self).interner.strings(), self.interner.strings());
                    assert(term_key(t.bytes_view(), old(self).interner.ids()) == Some(key));
                }
                id
            },
            None => {
                let id = self.next_id;
                self.next_id = self.next_id + 1;
                term_id_map_insert(&mut self.term_to_id, key, id);
                self.terms.push(key);
                proof {
                    let strs = self.interner.strings();
                    let entries = term_id_entries(self.term_to_id);
                    assert(entries == term_id_entries(mid.term_to_id).insert(key, id));
                    assert(self.terms@ == mid.terms@.push(key));
                    assert forall|i: int| 0 <= i < self.terms@.len() implies #[trigger] canonical_term(self.terms@[i], strs) by {
                        if i < mid.terms@.len() {
                            assert(self.terms@[i] == mid.terms@[i]);
                        }
                    }
                    assert forall|i: int| 0 <= i < self.terms@.len() implies entries.dom().contains(#[trigger] self.terms@[i]) by {
                        if i < mid.terms@.len() {
                            assert(self.terms@[i] == mid.terms@[i]);
                        }
                    }
                    assert forall|k: MappedTerm| #[trigger] entries.dom().contains(k) implies 0 <= entries[k] < self.terms@.len()
                        && self.terms@[entries[k] as int] == k by {
                        if k != key {
                            assert(term_id_entries(mid.term_to_id).dom().contains(k));
                        }
                    }
                    assert(self.terms_view() =~= mid.terms_view().push(t.bytes_view()));
                    assert forall|x: TermBytes| #[trigger] mid.lookup(x) is Some implies self.lookup(x) == mid.lookup(x) by {
                        let k = term_key(x, strs_ids(self));
                        assert(term_id_entries(mid.term_to_id).dom().contains(k->0));
                        assert(k->0 != key);
                    }
                }
                id
            },
        }
    }
}

/// The terms of `array` that are not among `known`, each once, in the order in which they
/// first occur.
pub open spec fn fresh_terms(known: Seq<TermBytes>, array: Seq<Option<LocalDictionaryTerm>>) -> Seq<TermBytes>
    decreases array.len(),
{
    if array.len() == 0 {
        Seq::empty()
    } else {
        let prev = fresh_terms(known, array.drop_last());
        match array.last() {
            Some(t) => if (known + prev).contains(t.bytes_view()) {
                prev
            } else {
                prev.push(t.bytes_view())
            },
            None => prev,
        }
    }
}

/// The fresh terms of a prefix of an array are a prefix of those of the whole array.
proof fn lemma_fresh_terms_prefix(known: Seq<TermBytes>, array: Seq<Option<LocalDictionaryTerm>>, k: int)
    requires
        0 <= k <= array.len(),
    ensures
        is_prefix(fresh_terms(known, array.subrange(0, k)), fresh_terms(known, array)),
        fresh_terms(known, array.subrange(0, k)).len() <= k,
    decreases array.len() - k,
{
    lemma_fresh_terms_len(known, array.subrange(0, k));
    if k < array.len() {
        lemma_fresh_terms_prefix(known, array, k + 1);
        assert(array.subrange(0, k + 1).drop_last() =~= array.subrange(0, k));
    } else {
        assert(array.subrange(0, k) =~= array);
    }
}

/// An array has at most as many fresh terms as it has entries.
pub proof fn lemma_fresh_terms_len(known: Seq<TermBytes>, array: Seq<Option<LocalDictionaryTerm>>)
    ensures
        fresh_terms(known, array).len() <= array.len(),
    decreases array.len(),
{
    if array.len() > 0 {
        lemma_fresh_terms_len(known, array.drop_last());
    }
}

spec fn strs_ids(m: &ObjectIdInMemoryMapping) -> Map<Seq<u8>, u64> {
    m.interner.ids()
}

/// Whether `a` is a prefix of `b`.
pub open spec fn is_prefix<T>(a: Seq<T>, b: Seq<T>) -> bool {
    a.len() <= b.len() && forall|i: int| 0 <= i < a.len() ==> #[trigger] b[i] == a[i]
}

impl ObjectIdInMemoryMapping {
    /// The object id that encoding a term gives now; the terms keep their ids.
    pub closed spec fn id_of(&self, t: TermBytes) -> Option<i64> {
        self.lookup(t)
    }

    /// Encodes terms into object ids. The terms not seen before get the next ids, in the
    /// order in which they first occur; absent terms stay absent.
    pub fn encode_array(&mut self, array: &[Option<LocalDictionaryTerm>]) -> (r: Vec<Option<i64>>)
        requires
            old(self).wf(),
            old(self).terms_view().len() + fresh_terms(old(self).terms_view(), array@).len() <= i64::MAX,
            old(self).string_count() + 3 * fresh_terms(old(self).terms_view(), array@).len() <= u64::MAX,
        ensures
            final(self).wf(),
            final(self).terms_view() == old(self).terms_view() + fresh_terms(old(self).terms_view(), array@),
            forall|j: int| 0 <= j < fresh_terms(old(self).terms_view(), array@).len()
                ==> final(self).id_of(#[trigger] fresh_terms(old(self).terms_view(), array@)[j])
                == Some((old(self).terms_view().len() + j) as i64),
            forall|x: TermBytes| #[trigger] old(self).id_of(x) is Some ==> final(self).id_of(x) == old(self).id_of(x),
            r.len() == array.len(),
            forall|k: int| 0 <= k < array.len() ==> (#[trigger] array[k] is None <==> r[k] is None),
            forall|k: int| 0 <= k < array.len() && #[trigger] array[k] is Some ==> r[k] == final(self).id_of(array[k]->0.bytes_view())
                && 0 <= r[k]->0 < final(self).terms_view().len()
                && final(self).terms_view()[r[k]->0 as int] == array[k]->0.bytes_view(),
            final(self).string_count() <= old(self).string_count() + 3 * fresh_terms(old(self).terms_view(), array@).len(),
    {
        let ghost start = self.terms_view();
        let ghost fresh = fresh_terms(start, array@);
        let mut out: Vec<Option<i64>> = Vec::new();
        let mut k: usize = 0;
        proof {
            lemma_fresh_terms_prefix(start, array@, 0);
        }
        while k < array.len()
            invariant
                self.wf(),
                k <= array.len(),
                out.len() == k,
                start == old(self).terms_view(),
                fresh == fresh_terms(start, array@),
                start.len() + fresh.len() <= i64::MAX,
                old(self).string_count() + 3 * fresh.len() <= u64::MAX,
                is_prefix(fresh_terms(start, array@.subrange(0, k as int)), fresh),
                self.terms_view() == start + fresh_terms(start, array@.subrange(0, k as int)),
                self.string_count() <= old(self).string_count() + 3 * fresh_terms(start, array@.subrange(0, k as int)).len(),
                forall|j: int| 0 <= j < fresh_terms(start, array@.subrange(0, k as int)).len()
                    ==> self.lookup(#[trigger] fresh_terms(start, array@.subrange(0, k as int))[j]) == Some((start.len() + j) as i64),
                forall|x: TermBytes| #[trigger] old(self).lookup(x) is Some ==> self.lookup(x) == old(self).lookup(x),
                forall|j: int| 0 <= j < k ==> (#[trigger] array[j] is None <==> out[j] is None),
                forall|j: int| 0 <= j < k && #[trigger] array[j] is Some ==> out[j] == self.lookup(array[j]->0.bytes_view())
                    && 0 <= out[j]->0 < self.terms_view().len()
                    && self.terms_view()[out[j]->0 as int] == array[j]->0.bytes_view(),
            decreases array.len() - k,
        {
            let ghost before = *self;
            let ghost prev = fresh_terms(start, array@.subrange(0, k as int));
            proof {
                assert(array@.subrange(0, k as int + 1).drop_last() =~= array@.subrange(0, k as int));
                assert(array@.subrange(0, k as int + 1).last() == array[k as int]);
                lemma_fresh_terms_prefix(start, array@, k as int + 1);
            }
            match &array[k] {
                None => {
                    proof {
                        assert(fresh_terms(start, array@.subrange(0, k as int + 1)) == prev);
                    }
                    out.push(None);
                },
                Some(t) => {
                    proof {
                        lemma_lookup_iff_listed(before, t.bytes_view());
                        if before.lookup(t.bytes_view()) is None {
                            assert(fresh_terms(start, array@.subrange(0, k as int + 1)) == prev.push(t.bytes_view()));
                            assert(is_prefix(prev.push(t.bytes_view()), fresh));
                        }
                    }
                    let id = self.encode_term(t);
                    proof {
                        let now = fresh_terms(start, array@.subrange(0, k as int + 1));
                        if before.lookup(t.bytes_view()) is None {
                            assert(now == prev.push(t.bytes_view()));
                            assert(self.terms_view() =~= start + now);
                            assert forall|j: int| 0 <= j < now.len() implies self.lookup(#[trigger] now[j])
                                == Some((start.len() + j) as i64) by {
                                if j < prev.len() {
                                    assert(now[j] == prev[j]);
                                    assert(before.lookup(prev[j]) is Some);
                                }
                            }
                        } else {
                            assert(now == prev);
                        }
                        assert forall|j: int| 0 <= j < k && #[trigger] array[j] is Some implies out[j] == self.lookup(array[j]->0.bytes_view())
                            && 0 <= out[j]->0 < self.terms_view().len()
                            && self.terms_view()[out[j]->0 as int] == array[j]->0.bytes_view() by {
                            assert(before.lookup(array[j]->0.bytes_view()) is Some);
                            assert(is_prefix(before.terms_view(), self.terms_view()));
                        }
                    }
                    out.push(Some(id));
                },
            }
            k = k + 1;
        }
        proof {
            assert(array@.subrange(0, array.len() as int) =~= array@);
        }
        out
    }

    /// The object id of a term, if it has one; gives out nothing.
    pub fn get_id_by_term(&self, t: &LocalDictionaryTerm) -> (r: Option<i64>)
        requires
            self.wf(),
        ensures
            r == self.id_of(t.bytes_view()),
    {
        let value = match self.interner.get_id(t.value.as_str()) {
            Some(v) => v,
            None => return None,
        };
        let data_type = match &t.data_type {
            Some(d) => match self.interner.get_id(d.as_str()) {
                Some(x) => Some(x),
                None => return None,
            },
            None => None,
        };
        let language = match &t.language {
            Some(l) => match self.interner.get_id(l.as_str()) {
                Some(x) => Some(x),
                None => return None,
            },
            None => None,
        };
        let key = MappedTerm { term_type: t.term_type, value, data_type, language };
        term_id_map_get(&self.term_to_id, &key)
    }

    fn resolve_str(&self, i: &InternedStr) -> (r: String)
        requires
            self.wf(),
            canonical_str(*i, self.interner.strings()),
        ensures
            vstd::utf8::encode_utf8(r@) == interned_bytes(*i, self.interner.strings()),
    {
        match self.interner.resolve(i) {
            Some(s) => s.to_owned(),
            None => String::new(),
        }
    }

    /// The term of an object id.
    fn resolve_term(&self, id: usize) -> (r: LocalDictionaryTerm)
        requires
            self.wf(),
            id < self.terms_view().len(),
        ensures
            r.bytes_view() == self.terms_view()[id as int],
    {
        let m = self.terms[id];
        proof {
            assert(canonical_term(self.terms@[id as int], self.interner.strings()));
        }
        let value = self.resolve_str(&m.value);
        let data_type = match &m.data_type {
            Some(d) => Some(self.resolve_str(d)),
            None => None,
        };
        let language = match &m.language {
            Some(l) => Some(self.resolve_str(l)),
            None => None,
        };
        LocalDictionaryTerm { term_type: m.term_type, value, data_type, language }
    }

    /// Resolves object ids into their terms; absent ids stay absent. Fails on the first id
    /// that no term has.
    pub fn resolve_plain_terms(&self, ids: &[Option<i64>]) -> (r: Result<Vec<Option<LocalDictionaryTerm>>, MappingError>)
        requires
            self.wf(),
        ensures
            r is Ok <==> forall|k: int| 0 <= k < ids.len() ==> (#[trigger] ids[k] matches Some(id) ==> 0 <= id < self.terms_view().len()),
            r matches Ok(v) ==> v.len() == ids.len() && forall|k: int| 0 <= k < ids.len() ==> match #[trigger] ids[k] {
                None => v[k] is None,
                Some(id) => v[k] matches Some(t) && t.bytes_view() == self.terms_view()[id as int],
            },
            r matches Err(e) ==> exists|k: int| 0 <= k < ids.len() && (#[trigger] ids[k] matches Some(id)
                && !(0 <= id < self.terms_view().len()) && e == MappingError::NotFound(id))
                && forall|j: int| 0 <= j < k ==> (#[trigger] ids[j] matches Some(i) ==> 0 <= i < self.terms_view().len()),
    {
        let mut out: Vec<Option<LocalDictionaryTerm>> = Vec::new();
        let mut k: usize = 0;
        while k < ids.len()
            invariant
                self.wf(),
                k <= ids.len(),
                out.len() == k,
                forall|j: int| 0 <= j < k ==> (#[trigger] ids[j] matches Some(i) ==> 0 <= i < self.terms_view().len()),
                forall|j: int| 0 <= j < k ==> match #[trigger] ids[j] {
                    None => out[j] is None,
                    Some(id) => out[j] matches Some(t) && t.bytes_view() == self.terms_view()[id as int],
                },
            decreases ids.len() - k,
        {
            match ids[k] {
                None => out.push(None),
                Some(id) => {
                    if id >= 0 && id < self.next_id {
                        let n = self.terms.len();
                        assert(id < n);
                        let t = self.resolve_term(id as usize);
                        assert(id as usize as int == id);
                        out.push(Some(t));
                    } else {
                        return Err(MappingError::NotFound(id));
                    }
                },
            }
            k = k + 1;
        }
        Ok(out)
    }
}

impl ObjectIdInMemoryMapping {
    /// Appends a term under the next object id.
    fn push_term(&mut self, t: &LocalDictionaryTerm)
        requires
            old(self).wf(),
            old(self).terms_view().len() < i64::MAX,
            old(self).string_count() + 3 <= u64::MAX,
        ensures
            final(self).wf(),
            final(self).terms_view() == old(self).terms_view().push(t.bytes_view()),
            final(self).lookup(t.bytes_view()) == Some(old(self).terms_view().len() as i64),
            forall|x: TermBytes| x != t.bytes_view() && #[trigger] old(self).lookup(x) is Some ==> final(self).lookup(x) == old(self).lookup(x),
            final(self).string_count() <= old(self).string_count() + 3,
    {
        let key = self.intern_term(t);
        let ghost mid = *self;
        let id = self.next_id;
        self.next_id = self.next_id + 1;
        term_id_map_insert(&mut self.term_to_id, key, id);
        self.terms.push(key);
        proof {
            let strs = self.interner.strings();
            let entries = term_id_entries(self.term_to_id);
            assert(entries == term_id_entries(mid.term_to_id).insert(key, id));
            assert(self.terms@ == mid.terms@.push(key));
            assert forall|i: int| 0 <= i < self.terms@.len() implies #[trigger] canonical_term(self.terms@[i], strs) by {
                if i < mid.terms@.len() {
                    assert(self.terms@[i] == mid.terms@[i]);
                }
            }
            assert forall|i: int| 0 <= i < self.terms@.len() implies entries.dom().contains(#[trigger] self.terms@[i]) by {
                if i < mid.terms@.len() {
                    assert(self.terms@[i] == mid.terms@[i]);
                }
            }
            assert forall|k: MappedTerm| #[trigger] entries.dom().contains(k) implies 0 <= entries[k] < self.terms@.len()
                && self.terms@[entries[k] as int] == k by {
                if k != key {
                    assert(term_id_entries(mid.term_to_id).dom().contains(k));
                }
            }
            assert(self.terms_view() =~= mid.terms_view().push(t.bytes_view()));
            assert forall|x: TermBytes| x != t.bytes_view() && #[trigger] mid.lookup(x) is Some implies self.lookup(x) == mid.lookup(x) by {
                let k = term_key(x, strs_ids(self))->0;
                assert(term_id_entries(mid.term_to_id).dom().contains(k));
                let e = term_id_entries(mid.term_to_id)[k];
                assert(mid.terms@[e as int] == k);
                lemma_canonical_key(k, mid.interner);
                if k == key {
                    lemma_term_key_bytes(x, mid.interner);
                    assert(false);
                }
            }
        }
    }

    /// Loads terms under ids that must continue the mapping's ids without a gap: the first
    /// must be the next id, and each one more than the one before. Terms before the first
    /// id that breaks the sequence are loaded; that one is refused.
    pub fn add_batch(&mut self, ids: &[i64], terms: &[LocalDictionaryTerm]) -> (r: Result<(), MappingError>)
        requires
            old(self).wf(),
            ids.len() == terms.len(),
            old(self).terms_view().len() + ids.len() < i64::MAX,
            old(self).string_count() + 3 * ids.len() <= u64::MAX,
        ensures
            final(self).wf(),
            r is Ok <==> ids_continue(ids@, old(self).terms_view().len() as int, ids.len() as int),
            r is Ok ==> final(self).terms_view() == old(self).terms_view() + term_views(terms@),
            r matches Err(e) ==> gap_at(ids@, old(self).terms_view().len() as int, e),
            r matches Err(e) ==> final(self).terms_view() == old(self).terms_view() + term_views(
                terms@.subrange(0, gap_index(ids@, old(self).terms_view().len() as int)),
            ),
            loaded_terms_resolve(*final(self), terms@, final(self).terms_view().len() - old(self).terms_view().len()),
            loaded_last_wins(*final(self), terms@, old(self).terms_view().len() as int,
                final(self).terms_view().len() - old(self).terms_view().len()),
    {
        let ghost start = self.terms_view();
        let mut k: usize = 0;
        while k < ids.len()
            invariant
                self.wf(),
                ids.len() == terms.len(),
                k <= ids.len(),
                start == old(self).terms_view(),
                start.len() + ids.len() < i64::MAX,
                old(self).string_count() + 3 * ids.len() <= u64::MAX,
                self.string_count() <= old(self).string_count() + 3 * k,
                ids_continue(ids@, start.len() as int, k as int),
                self.terms_view() == start + term_views(terms@.subrange(0, k as int)),
                loaded_terms_resolve(*self, terms@, k as int),
                loaded_last_wins(*self, terms@, start.len() as int, k as int),
            decreases ids.len() - k,
        {
            let id = ids[k];
            proof {
                assert(term_views(terms@.subrange(0, k as int)).len() == k);
                assert(self.terms_view().len() == self.terms@.len());
                assert(self.next_id == start.len() + k);
            }
            if id != self.next_id {
                proof {
                    assert(term_views(terms@.subrange(0, k as int)).len() == k);
                    lemma_gap_index(ids@, start.len() as int, k as int);
                }
                return Err(MappingError::NonContiguous { expected: self.next_id, found: id });
            }
            let ghost before = *self;
            self.push_term(&terms[k]);
            proof {
                assert(term_views(terms@.subrange(0, k as int + 1)) =~= term_views(terms@.subrange(0, k as int)).push(terms[k as int].bytes_view()));
                assert forall|j: int| 0 <= j < k + 1 implies (#[trigger] self.lookup(terms[j].bytes_view())) matches Some(i)
                    && 0 <= i < self.terms_view().len() && self.terms_view()[i as int] == terms[j].bytes_view() by {
                    if j < k && terms[j].bytes_view() != terms[k as int].bytes_view() {
                        assert(before.id_of(terms[j].bytes_view()) is Some);
                    }
                }
                assert forall|j: int| 0 <= j < k + 1 && #[trigger] last_row_holding(terms@, j, k as int + 1)
                    implies self.id_of(terms[j].bytes_view()) == Some((start.len() + j) as i64) by {
                    if j < k {
                        assert(terms[k as int].bytes_view() != terms[j].bytes_view());
                        assert forall|i: int| j < i < k implies #[trigger] terms[i].bytes_view() != terms[j].bytes_view() by {
                            assert(terms@[i].bytes_view() != terms@[j].bytes_view());
                        }
                        assert(last_row_holding(terms@, j, k as int));
                    }
                }
            }
            k = k + 1;
        }
        proof {
            assert(terms@.subrange(0, ids.len() as int) =~= terms@);
        }
        Ok(())
    }
}

/// The terms at the level of their bytes.
pub open spec fn term_views(ts: Seq<LocalDictionaryTerm>) -> Seq<TermBytes> {
    ts.map_values(|t: LocalDictionaryTerm| t.bytes_view())
}

/// The first `k` ids count up from `start` without a gap.
pub open spec fn ids_continue(ids: Seq<i64>, start: int, k: int) -> bool {
    forall|j: int| 0 <= j < k ==> #[trigger] ids[j] == start + j
}

/// The position of the first id that does not continue from `start`.
pub open spec fn gap_index(ids: Seq<i64>, start: int) -> int {
    choose|k: int| 0 <= k < ids.len() && ids[k] != start + k && ids_continue(ids, start, k)
}

/// The error names the id expected at the first gap and the id found there.
pub open spec fn gap_at(ids: Seq<i64>, start: int, e: MappingError) -> bool {
    let k = gap_index(ids, start);
    &&& 0 <= k < ids.len()
    &&& ids[k] != start + k
    &&& ids_continue(ids, start, k)
    &&& e == (MappingError::NonContiguous { expected: (start + k) as i64, found: ids[k] })
}

proof fn lemma_gap_index(ids: Seq<i64>, start: int, k: int)
    requires
        0 <= k < ids.len(),
        ids[k] != start + k,
        ids_continue(ids, start, k),
    ensures
        gap_index(ids, start) == k,
{
    let g = gap_index(ids, start);
    assert(0 <= g < ids.len() && ids[g] != start + g && ids_continue(ids, start, g));
    if g < k {
        assert(ids[g] == start + g);
    }
    if g > k {
        assert(ids[k] == start + k);
    }
}

/// Row `j` is the last of the first `k` rows that holds its term.
pub open spec fn last_row_holding(terms: Seq<LocalDictionaryTerm>, j: int, k: int) -> bool {
    forall|i: int| j < i < k ==> #[trigger] terms[i].bytes_view() != terms[j].bytes_view()
}

/// Of the first `k` loaded rows, which got the object ids counted from `start`, the last row
/// that holds a term gives the term its id: a later row overwrites an earlier one.
pub open spec fn loaded_last_wins(m: ObjectIdInMemoryMapping, terms: Seq<LocalDictionaryTerm>, start: int, k: int) -> bool {
    forall|j: int| 0 <= j < k && j < terms.len() && #[trigger] last_row_holding(terms, j, k)
        ==> m.id_of(terms[j].bytes_view()) == Some((start + j) as i64)
}

/// Each of the first `k` loaded terms has an object id that leads back to it.
pub open spec fn loaded_terms_resolve(m: ObjectIdInMemoryMapping, terms: Seq<LocalDictionaryTerm>, k: int) -> bool {
    forall|j: int| 0 <= j < k && j < terms.len() ==> ((#[trigger] m.id_of(terms[j].bytes_view())) matches Some(id)
        && 0 <= id < m.terms_view().len() && m.terms_view()[id as int] == terms[j].bytes_view())
}

/// The interned form of a term stands for the term.
proof fn lemma_term_key_bytes(x: TermBytes, interner: StringInterner)
    requires
        interner.wf(),
        term_key(x, interner.ids()) is Some,
    ensures
        mapped_bytes(term_key(x, interner.ids())->0, interner.strings()) == x,
{
    lemma_intern_key_bytes(x.value, interner);
    if let Some(d) = x.data_type {
        lemma_intern_key_bytes(d, interner);
    }
    if let Some(l) = x.language {
        lemma_intern_key_bytes(l, interner);
    }
}

proof fn lemma_intern_key_bytes(b: Seq<u8>, interner: StringInterner)
    requires
        interner.wf(),
        intern_key(b, interner.ids()) is Some,
    ensures
        interned_bytes(intern_key(b, interner.ids())->0, interner.strings()) == b,
{
    if b.len() <= SMALL_STRING_SIZE {
        lemma_small_of(b);
        let i = small_of(b);
        if let InternedStr::Small { len, bytes } = i {
            assert(bytes@.subrange(0, len as int) =~= b);
        }
    } else {
        assert(interner.ids().dom().contains(b));
    }
}

/// The number of terms in each batch that [`ObjectIdInMemoryMapping::read_batches_since_id`]
/// returns, but the last.
pub const CHUNK_SIZE: usize = 8192;

/// Object ids and their terms, position by position.
pub struct TermBatch {
    pub ids: Vec<i64>,
    pub terms: Vec<LocalDictionaryTerm>,
}

/// The ids `from, from + 1, ..., from + n - 1`.
pub open spec fn id_run(from: int, n: int) -> Seq<i64> {
    Seq::new(n as nat, |i: int| (from + i) as i64)
}

/// How many terms the batch that starts at `from` holds when the mapping holds `len`.
pub open spec fn batch_size(from: int, len: int) -> int {
    if len - from < CHUNK_SIZE {
        len - from
    } else {
        CHUNK_SIZE as int
    }
}

/// The number of batches needed for the terms from `start` on.
pub open spec fn batch_count(start: int, len: int) -> int {
    if start >= len {
        0
    } else {
        (len - start + CHUNK_SIZE - 1) / CHUNK_SIZE as int
    }
}

impl MappingError {
    /// The error's message.
    pub fn to_string(&self) -> (r: String)
        ensures
            r@ == mapping_error_message(*self),
    {
        match self {
            MappingError::NotFound(id) => {
                let mut s = String::new();
                s.append("Object ID ");
                let d = crate::decimal::format_i64(*id);
                s.append(d.as_str());
                s.append(" not found in dictionary");
                s
            },
            MappingError::NonContiguous { expected, found } => {
                let mut s = String::new();
                s.append("Non-contiguous or unsorted object ID detected. Expected ",
                );
                let e = crate::decimal::format_i64(*expected);
                s.append(e.as_str());
                s.append(", found ");
                let f = crate::decimal::format_i64(*found);
                s.append(f.as_str());
                s
            },
        }
    }
}

/// The message of a mapping error.
pub open spec fn mapping_error_message(e: MappingError) -> Seq<char> {
    match e {
        MappingError::NotFound(id) => "Object ID "@ + crate::decimal::decimal_chars(id as int)
            + " not found in dictionary"@,
        MappingError::NonContiguous { expected, found } => "Non-contiguous or unsorted object ID detected. Expected "@
            + crate::decimal::decimal_chars(expected as int) + ", found "@ + crate::decimal::decimal_chars(found as int),
    }
}

impl ObjectIdInMemoryMapping {
    /// The terms from an object id on, with their ids, in batches of [`CHUNK_SIZE`] terms
    /// (the last one may hold fewer).
    pub fn read_batches_since_id(&self, start_id: i64) -> (r: Vec<TermBatch>)
        requires
            self.wf(),
            start_id >= 0,
        ensures
            r.len() == batch_count(start_id as int, self.terms_view().len() as int),
            forall|b: int| 0 <= b < r.len() ==> {
                let from = start_id + CHUNK_SIZE * b;
                let n = batch_size(from, self.terms_view().len() as int);
                &&& (#[trigger] r[b]).ids@ == id_run(from, n)
                &&& term_views(r[b].terms@) == self.terms_view().subrange(from, from + n)
            },
    {
        let mut batches: Vec<TermBatch> = Vec::new();
        let current_next_id = self.next_id;
        if start_id >= current_next_id {
            return batches;
        }
        let mut current_id = start_id;
        let ghost len = self.terms_view().len() as int;
        while current_id < current_next_id
            invariant
                self.wf(),
                0 <= start_id <= current_id,
                current_next_id == self.next_id,
                len == self.terms_view().len(),
                len == current_next_id,
                start_id < current_next_id,
                current_id <= current_next_id,
                current_id < current_next_id ==> current_id == start_id + CHUNK_SIZE * batches.len(),
                current_id == current_next_id ==> batches.len() > 0 && start_id + CHUNK_SIZE * (batches.len() - 1) < current_next_id
                    <= start_id + CHUNK_SIZE * batches.len(),
                current_next_id <= self.terms@.len(),
                forall|b: int| 0 <= b < batches.len() ==> {
                    let from = start_id + CHUNK_SIZE * b;
                    let n = batch_size(from, len);
                    &&& (#[trigger] batches[b]).ids@ == id_run(from, n)
                    &&& term_views(batches[b].terms@) == self.terms_view().subrange(from, from + n)
                },
            decreases current_next_id - current_id,
        {
            let n_terms = self.terms.len();
            assert(current_next_id - current_id <= n_terms);
            let total_remaining = (current_next_id - current_id) as usize;
            let take: usize = if total_remaining < CHUNK_SIZE {
                total_remaining
            } else {
                CHUNK_SIZE
            };
            let mut ids: Vec<i64> = Vec::new();
            let mut terms: Vec<LocalDictionaryTerm> = Vec::new();
            let mut i: usize = 0;
            while i < take
                invariant
                    self.wf(),
                    len == self.terms_view().len(),
                    0 <= current_id,
                    current_id + take <= len,
                    i <= take,
                    ids.len() == i,
                    terms.len() == i,
                    ids@ == id_run(current_id as int, i as int),
                    term_views(terms@) == self.terms_view().subrange(current_id as int, current_id + i),
                decreases take - i,
            {
                let id = current_id + i as i64;
                let n = self.terms.len();
                assert(id < n);
                let t = self.resolve_term(id as usize);
                ids.push(id);
                terms.push(t);
                proof {
                    assert(ids@ =~= id_run(current_id as int, i + 1));
                    assert(term_views(terms@) =~= self.terms_view().subrange(current_id as int, current_id + i + 1));
                }
                i = i + 1;
            }
            let ghost old_batches = batches@;
            proof {
                assert(take == batch_size(current_id as int, len));
            }
            batches.push(TermBatch { ids, terms });
            proof {
                assert forall|b: int| 0 <= b < batches.len() implies {
                    let from = start_id + CHUNK_SIZE * b;
                    let n = batch_size(from, len);
                    &&& (#[trigger] batches[b]).ids@ == id_run(from, n)
                    &&& term_views(batches[b].terms@) == self.terms_view().subrange(from, from + n)
                } by {
                    if b < old_batches.len() {
                        assert(batches[b] == old_batches[b]);
                    }
                }
            }
            current_id = current_id + take as i64;
        }
        proof {
            let k = batches.len() as int;
            let c = CHUNK_SIZE as int;
            assert(k == batch_count(start_id as int, len)) by (nonlinear_arith)
                requires
                    start_id + c * (k - 1) < len <= start_id + c * k,
                    start_id < len,
                    c == 8192,
                    len == current_next_id,
                    batch_count(start_id as int, len) == (len - start_id + c - 1) / c,
            ;
        }
        batches
    }
}

/// The object id encoding gives a term leads back to that term.
pub proof fn lemma_id_of_resolves(m: ObjectIdInMemoryMapping, t: TermBytes)
    requires
        m.wf(),
        m.id_of(t) is Some,
    ensures
        0 <= m.id_of(t)->0 < m.terms_view().len(),
        m.terms_view()[m.id_of(t)->0 as int] == t,
{
    lemma_term_key_bytes(t, m.interner);
}

/// A term has an object id exactly when it is among the mapping's terms.
pub proof fn lemma_lookup_iff_listed(m: ObjectIdInMemoryMapping, t: TermBytes)
    requires
        m.wf(),
    ensures
        m.id_of(t) is Some <==> m.terms_view().contains(t),
{
    if m.id_of(t) is Some {
        lemma_id_of_resolves(m, t);
        assert(m.terms_view()[m.id_of(t)->0 as int] == t);
    }
    if m.terms_view().contains(t) {
        let i = choose|i: int| 0 <= i < m.terms_view().len() && m.terms_view()[i] == t;
        assert(canonical_term(m.terms@[i], m.interner.strings()));
        lemma_canonical_key(m.terms@[i], m.interner);
        assert(term_id_entries(m.term_to_id).dom().contains(m.terms@[i]));
    }
}

/// Every term of an array is, after the array was encoded, among the known terms or the
/// fresh ones.
pub proof fn lemma_fresh_terms_cover(known: Seq<TermBytes>, array: Seq<Option<LocalDictionaryTerm>>)
    ensures
        forall|k: int| 0 <= k < array.len() && #[trigger] array[k] is Some
            ==> (known + fresh_terms(known, array)).contains(array[k]->0.bytes_view()),
    decreases array.len(),
{
    if array.len() > 0 {
        let prev = fresh_terms(known, array.drop_last());
        lemma_fresh_terms_cover(known, array.drop_last());
        assert forall|k: int| 0 <= k < array.len() && #[trigger] array[k] is Some
            implies (known + fresh_terms(known, array)).contains(array[k]->0.bytes_view()) by {
            let x = array[k]->0.bytes_view();
            if k < array.len() - 1 {
                assert(array.drop_last()[k] == array[k]);
                let i = choose|i: int| 0 <= i < (known + prev).len() && (known + prev)[i] == x;
                assert((known + fresh_terms(known, array))[i] == x);
            } else if !(known + prev).contains(x) {
                assert((known + fresh_terms(known, array))[(known.len() + prev.len()) as int] == x);
            } else {
                assert(fresh_terms(known, array) == prev);
            }
        }
    }
}

/// An array whose terms are all known has no fresh terms.
pub proof fn lemma_fresh_terms_of_known(known: Seq<TermBytes>, array: Seq<Option<LocalDictionaryTerm>>)
    requires
        forall|k: int| 0 <= k < array.len() && #[trigger] array[k] is Some ==> known.contains(array[k]->0.bytes_view()),
    ensures
        fresh_terms(known, array) == Seq::<TermBytes>::empty(),
    decreases array.len(),
{
    if array.len() > 0 {
        assert forall|k: int| 0 <= k < array.drop_last().len() && #[trigger] array.drop_last()[k] is Some
            implies known.contains(array.drop_last()[k]->0.bytes_view()) by {
            assert(array.drop_last()[k] == array[k]);
        }
        lemma_fresh_terms_of_known(known, array.drop_last());
        assert(known + Seq::<TermBytes>::empty() =~= known);
        assert(array.last() == array[array.len() - 1]);
    }
}

/// Encoding an array a second time finds no fresh term, so it gives out no new object id.
pub proof fn lemma_encode_again_adds_nothing(known: Seq<TermBytes>, array: Seq<Option<LocalDictionaryTerm>>)
    ensures
        fresh_terms(known + fresh_terms(known, array), array) == Seq::<TermBytes>::empty(),
{
    lemma_fresh_terms_cover(known, array);
    lemma_fresh_terms_of_known(known + fresh_terms(known, array), array);
}

} // verus!

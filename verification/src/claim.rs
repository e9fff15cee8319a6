//! Object id claims: the range of ids a node may hand out, how it is consumed, refilled from a
//! claimer, adjusted for ids assigned elsewhere, and kept in the dictionary's metadata.
//!
//! A claim is an inclusive range `(next_free, last_free)`.

use crate::decimal::{
    decimal_chars, digits_of, format_i64, format_u64, lemma_i64_decimal_roundtrip,
    lemma_u64_decimal_roundtrip, parse_i64, parse_i64_bytes, parse_u64, parse_u64_bytes,
};
use vstd::prelude::*;

verus! {

/// The errors of the local object id dictionary.
#[derive(Debug, Clone, PartialEq, Eq)]
pub enum LocalObjectIdError {
    /// The storage backend failed.
    Storage(String),
    /// No term is stored under the object id.
    NotFound(i64),
    /// Claiming object ids failed.
    ObjectIdClaimer(String),
    /// Stored data is inconsistent.
    Corruption(String),
}

/// The human-readable message of an error.
pub open spec fn error_message(e: LocalObjectIdError) -> Seq<char> {
    match e {
        LocalObjectIdError::Storage(m) => "Storage error: "@ + m@,
        LocalObjectIdError::NotFound(id) => "Object ID "@ + decimal_chars(id as int)
            + " not found"@,
        LocalObjectIdError::ObjectIdClaimer(m) => m@,
        LocalObjectIdError::Corruption(m) => m@,
    }
}

impl LocalObjectIdError {
    /// Renders the error as a message.
    pub fn to_string(&self) -> (r: String)
        ensures
            r@ == error_message(*self),
    {
        match self {
            LocalObjectIdError::Storage(m) => {
                let mut s = String::new();
                s.append("Storage error: ");
                s.append(m.as_str());
                s
            },
            LocalObjectIdError::NotFound(id) => {
                let mut s = String::new();
                s.append("Object ID ");
                let digits = format_i64(*id);
                s.append(digits.as_str());
                s.append(" not found");
                proof {
                    assert(s@ == "Object ID "@ + decimal_chars(*id as int) + " not found"@);
                }
                s
            },
            LocalObjectIdError::ObjectIdClaimer(m) => m.clone(),
            LocalObjectIdError::Corruption(m) => m.clone(),
        }
    }
}

/// The source of fresh object id ranges for a node.
pub trait ObjectIdClaimer {
    /// Claims the next inclusive range `(first, last)` of object ids for this node.
    fn claim_next_range(&self) -> Result<(i64, i64), LocalObjectIdError>;
}

/// A claimer that hands out every non-negative id at once, for a single node.
#[derive(Debug, Clone, Copy)]
pub struct StaticObjectIdClaimer;

impl ObjectIdClaimer for StaticObjectIdClaimer {
    fn claim_next_range(&self) -> (r: Result<(i64, i64), LocalObjectIdError>)
        ensures
            r == Ok::<(i64, i64), LocalObjectIdError>((0, i64::MAX)),
    {
        Ok((0, i64::MAX))
    }
}

/// An object id handed out by a claim, and the range that was newly claimed to get it.
#[derive(Debug, Clone, Copy, PartialEq, Eq)]
pub struct NextIdResult {
    pub id: i64,
    pub newly_claimed: Option<(i64, i64)>,
}

/// The object ids claimed by a node, and the claimer that refills them.
#[derive(Debug, Clone)]
pub struct ObjectIdClaim<C> {
    /// The range `[next_free, last_free]`, both inclusive.
    claim_state: Option<(i64, i64)>,
    claimer: Option<C>,
}

/// What taking one id from a claim gives: the id (if there is a claim) and the claim left
/// behind. The claim `[next_free, last_free]` is inclusive, so its last id is handed out too
/// and leaves no claim; a claim with `next_free > last_free` is invalid (`None`).
pub open spec fn take_from(state: Option<(i64, i64)>) -> Option<(Option<i64>, Option<(i64, i64)>)> {
    match state {
        None => Some((None, None)),
        Some((next, last)) => if next < last {
            Some((Some(next), Some(((next + 1) as i64, last))))
        } else if next == last {
            Some((Some(next), None))
        } else {
            None
        },
    }
}

/// The claim left after the first id of a newly claimed range `(first, last)` is handed out.
pub open spec fn after_new_range(range: (i64, i64)) -> Option<(i64, i64)> {
    if range.0 < range.1 {
        Some(((range.0 + 1) as i64, range.1))
    } else {
        None
    }
}

impl<C: ObjectIdClaimer> ObjectIdClaim<C> {
    /// The current claim.
    pub closed spec fn claim(&self) -> Option<(i64, i64)> {
        self.claim_state
    }

    /// Whether a claimer is configured.
    pub closed spec fn has_claimer(&self) -> bool {
        self.claimer is Some
    }

    /// Creates a claim with an initial range and an optional claimer.
    pub fn new(initial_claim: Option<(i64, i64)>, claimer: Option<C>) -> (r: Self)
        ensures
            r.claim() == initial_claim,
            r.has_claimer() == claimer is Some,
    {
        ObjectIdClaim { claim_state: initial_claim, claimer }
    }

    /// Returns the current object id claim.
    pub fn peek_current_claim(&self) -> (r: Option<(i64, i64)>)
        ensures
            r == self.claim(),
    {
        self.claim_state
    }

    /// Replaces the current claim.
    pub fn set_claim_state(&mut self, state: Option<(i64, i64)>)
        ensures
            final(self).claim() == state,
            final(self).has_claimer() == old(self).has_claimer(),
    {
        self.claim_state = state;
    }

    /// Takes the next id from the current claim, without claiming a new range: `Ok(Some(id))`
    /// when there is a claim (its last id included), `Ok(None)` when there is none, and an error
    /// when the claim is invalid.
    pub fn take_from_claim(&mut self) -> (r: Result<Option<i64>, LocalObjectIdError>)
        ensures
            final(self).has_claimer() == old(self).has_claimer(),
            match take_from(old(self).claim()) {
                Some((id, left)) => r == Ok::<Option<i64>, LocalObjectIdError>(id)
                    && final(self).claim() == left,
                None => (r matches Err(LocalObjectIdError::ObjectIdClaimer(_)))
                    && final(self).claim() == old(self).claim(),
            },
    {
        match self.claim_state {
            None => Ok(None),
            Some((next_free, last_free)) => {
                if next_free < last_free {
                    self.claim_state = Some((next_free + 1, last_free));
                    Ok(Some(next_free))
                } else if next_free == last_free {
                    self.claim_state = None;
                    Ok(Some(next_free))
                } else {
                    Err(LocalObjectIdError::ObjectIdClaimer("Invalid range in object id claim.".to_string()))
                }
            },
        }
    }

    /// Hands out the first id of a range returned by the claimer and keeps the rest as the
    /// claim. A range with `first > last` is refused and the claim is left as it was.
    pub fn accept_claimed_range(&mut self, range: (i64, i64)) -> (r: Result<
        NextIdResult,
        LocalObjectIdError,
    >)
        ensures
            final(self).has_claimer() == old(self).has_claimer(),
            range.0 <= range.1 ==> r == Ok::<NextIdResult, LocalObjectIdError>(
                NextIdResult { id: range.0, newly_claimed: Some(range) },
            ) && final(self).claim() == after_new_range(range),
            range.0 > range.1 ==> (r matches Err(LocalObjectIdError::ObjectIdClaimer(_))
                && final(self).claim() == old(self).claim()),
    {
        let (next_free, last_free) = range;
        if next_free < last_free {
            self.claim_state = Some((next_free + 1, last_free));
        } else if next_free == last_free {
            self.claim_state = None;
        } else {
            return Err(
                LocalObjectIdError::ObjectIdClaimer(
                    "Invalid claim retruned from object id claimer.".to_string(),
                ),
            );
        }
        Ok(NextIdResult { newly_claimed: Some((next_free, last_free)), id: next_free })
    }

    /// Hands out the next object id: from the current claim while it holds an id (its last one included), else
    /// from a range newly claimed from the claimer.
    pub fn acquire_next_id(&mut self) -> (r: Result<NextIdResult, LocalObjectIdError>)
        ensures
            final(self).has_claimer() == old(self).has_claimer(),
            match take_from(old(self).claim()) {
                None => (r matches Err(LocalObjectIdError::ObjectIdClaimer(_)))
                    && final(self).claim() == old(self).claim(),
                Some((Some(id), left)) => r == Ok::<NextIdResult, LocalObjectIdError>(
                    NextIdResult { id, newly_claimed: None },
                ) && final(self).claim() == left,
                Some((None, _)) => if !old(self).has_claimer() {
                    (r matches Err(LocalObjectIdError::ObjectIdClaimer(_)))
                        && final(self).claim() is None
                } else {
                    // whatever range the claimer returned
                    match r {
                        Ok(res) => res.newly_claimed matches Some(range) && range.0 <= range.1
                            && res.id == range.0 && final(self).claim() == after_new_range(
                            range,
                        ),
                        Err(_) => final(self).claim() is None,
                    }
                },
            },
    {
        match self.take_from_claim() {
            Err(e) => Err(e),
            Ok(Some(id)) => Ok(NextIdResult { id, newly_claimed: None }),
            Ok(None) => {
                let claimed = match &self.claimer {
                    None => Err(
                        LocalObjectIdError::ObjectIdClaimer(
                            "ObjectIdClaimer is required to claim new ID range but none was configured".to_string(),
                        ),
                    ),
                    Some(claimer) => claimer.claim_next_range(),
                };
                match claimed {
                    Err(e) => Err(e),
                    Ok(range) => self.accept_claimed_range(range),
                }
            },
        }
    }
}

/// The ids handed out by taking `k` times from a claim, stopping when it is used up.
pub open spec fn taken_ids(state: Option<(i64, i64)>, k: nat) -> Seq<i64>
    decreases k,
{
    if k == 0 {
        seq![]
    } else {
        match take_from(state) {
            Some((Some(id), left)) => seq![id] + taken_ids(left, (k - 1) as nat),
            _ => seq![],
        }
    }
}

/// Ids taken one after another from a valid claim `[next, last]` are strictly increasing and
/// lie in `[next, last]`.
pub proof fn lemma_taken_ids_increase(next: i64, last: i64, k: nat)
    requires
        next <= last,
    ensures
        forall|i: int|
            0 <= i < taken_ids(Some((next, last)), k).len() ==> next <= #[trigger] taken_ids(
                Some((next, last)),
                k,
            )[i] <= last,
        forall|i: int, j: int|
            0 <= i < j < taken_ids(Some((next, last)), k).len() ==> #[trigger] taken_ids(
                Some((next, last)),
                k,
            )[i] < #[trigger] taken_ids(Some((next, last)), k)[j],
    decreases k,
{
    if k > 0 && next < last {
        let rest = taken_ids(Some(((next + 1) as i64, last)), (k - 1) as nat);
        lemma_taken_ids_increase((next + 1) as i64, last, (k - 1) as nat);
        assert(taken_ids(Some((next, last)), k) =~= seq![next] + rest);
    } else if k > 0 {
        assert(taken_ids(None, (k - 1) as nat) =~= Seq::<i64>::empty());
        assert(taken_ids(Some((next, last)), k) =~= seq![next]);
    }
}

/// The largest value of a non-empty sequence of ids.
pub open spec fn max_id(ids: Seq<i64>) -> i64
    recommends
        ids.len() > 0,
    decreases ids.len(),
{
    if ids.len() <= 1 {
        ids[0]
    } else if ids.last() >= max_id(ids.drop_last()) {
        ids.last()
    } else {
        max_id(ids.drop_last())
    }
}

proof fn lemma_max_id_bounds(ids: Seq<i64>)
    requires
        ids.len() > 0,
    ensures
        forall|i: int| 0 <= i < ids.len() ==> ids[i] <= max_id(ids),
        exists|i: int| 0 <= i < ids.len() && ids[i] == max_id(ids),
    decreases ids.len(),
{
    if ids.len() > 1 {
        lemma_max_id_bounds(ids.drop_last());
        let i = choose|i: int| 0 <= i < ids.len() - 1 && ids.drop_last()[i] == max_id(ids.drop_last());
        assert(ids[i] == ids.drop_last()[i]);
        assert forall|j: int| 0 <= j < ids.len() implies ids[j] <= max_id(ids) by {
            if j < ids.len() - 1 {
                assert(ids[j] == ids.drop_last()[j]);
            }
        }
    } else {
        assert(ids[0] == max_id(ids));
    }
}

/// How a claim changes when ids assigned elsewhere are recorded: `None` when the claim stays,
/// `Some(new_claim)` when the ids reach into it, in which case the claim moves past the largest
/// of them (and is used up when that one reaches its last id).
pub open spec fn claim_after_ids(current: Option<(i64, i64)>, ids: Seq<i64>) -> Option<Option<(i64, i64)>> {
    match current {
        Some((next, last)) => if ids.len() > 0 && max_id(ids) >= next {
            if max_id(ids) >= last {
                Some(None)
            } else {
                Some(Some(((max_id(ids) + 1) as i64, last)))
            }
        } else {
            None
        },
        None => None,
    }
}

/// Decides how the claim changes when a batch of globally assigned ids is recorded.
pub fn claim_after_global_ids(current: Option<(i64, i64)>, ids: &[i64]) -> (r: Option<Option<(i64, i64)>>)
    ensures
        r == claim_after_ids(current, ids@),
{
    let mut max: Option<i64> = None;
    let mut i: usize = 0;
    while i < ids.len()
        invariant
            i <= ids.len(),
            i == 0 <==> max is None,
            max matches Some(m) ==> m == max_id(ids@.subrange(0, i as int)),
        decreases ids.len() - i,
    {
        let id = ids[i];
        proof {
            let prefix = ids@.subrange(0, i as int + 1);
            assert(prefix.drop_last() =~= ids@.subrange(0, i as int));
            assert(prefix.last() == id);
        }
        max = match max {
            None => Some(id),
            Some(m) => if id >= m {
                Some(id)
            } else {
                Some(m)
            },
        };
        i = i + 1;
    }
    proof {
        assert(ids@.subrange(0, ids@.len() as int) =~= ids@);
    }
    match (max, current) {
        (Some(max_id), Some((next_free, last_free))) => {
            if max_id >= next_free {
                if max_id >= last_free {
                    Some(None)
                } else {
                    Some(Some((max_id + 1, last_free)))
                }
            } else {
                None
            }
        },
        _ => None,
    }
}

/// Ids recorded from elsewhere are never handed out again by the claim that results: every id
/// later taken from it is larger than each recorded id.
pub proof fn lemma_recorded_ids_not_reissued(next: i64, last: i64, ids: Seq<i64>, k: nat)
    requires
        next <= last,
    ensures
        ({
            let after = match claim_after_ids(Some((next, last)), ids) {
                Some(c) => c,
                None => Some((next, last)),
            };
            forall|i: int, j: int|
                0 <= i < taken_ids(after, k).len() && 0 <= j < ids.len() ==> #[trigger] ids[j]
                    < #[trigger] taken_ids(after, k)[i]
        }),
{
    let after = match claim_after_ids(Some((next, last)), ids) {
        Some(c) => c,
        None => Some((next, last)),
    };
    if ids.len() > 0 {
        lemma_max_id_bounds(ids);
    }
    match after {
        Some((n, l)) => {
            lemma_taken_ids_increase(n, l, k);
            assert forall|i: int, j: int|
                0 <= i < taken_ids(after, k).len() && 0 <= j < ids.len() implies #[trigger] ids[j]
                < #[trigger] taken_ids(after, k)[i] by {
                assert(n <= taken_ids(after, k)[i]);
                assert(ids[j] <= max_id(ids));
            }
        },
        None => {
            if k > 0 {
                assert(taken_ids(after, k) =~= seq![]);
            }
        },
    }
}

/// The claim that a pair of stored bounds describes: `Some(claim)` when both are there and
/// `next <= last` or neither is there, `None` when the pair is corrupt.
pub open spec fn validated_claim(next: Option<i64>, last: Option<i64>) -> Option<Option<(i64, i64)>> {
    match (next, last) {
        (Some(n), Some(l)) => if n > l {
            None
        } else {
            Some(Some((n, l)))
        },
        (None, None) => Some(None),
        _ => None,
    }
}

/// Checks the claim loaded from a dictionary: both bounds or neither, and `next <= last`.
pub fn validate_initial_claim(next_free_id: Option<i64>, last_free_id: Option<i64>) -> (r: Result<
    Option<(i64, i64)>,
    LocalObjectIdError,
>)
    ensures
        match validated_claim(next_free_id, last_free_id) {
            Some(c) => r == Ok::<Option<(i64, i64)>, LocalObjectIdError>(c),
            None => r matches Err(LocalObjectIdError::Corruption(_)),
        },
{
    match (next_free_id, last_free_id) {
        (Some(next), Some(last)) => {
            if next > last {
                let mut msg = String::new();
                msg.append("Invalid object id claim when loading local object id dictionary ([",
                );
                let n = format_i64(next);
                msg.append(n.as_str());
                msg.append(", ");
                let l = format_i64(last);
                msg.append(l.as_str());
                msg.append("])");
                return Err(LocalObjectIdError::Corruption(msg));
            }
            Ok(Some((next, last)))
        },
        (None, None) => Ok(None),
        _ => Err(
            LocalObjectIdError::Corruption(
                "Only one claim tracking value was found in the local object id mapping.".to_string(),
            ),
        ),
    }
}

/// The characters of an optional stored string.
pub open spec fn opt_chars(s: Option<String>) -> Option<Seq<char>> {
    match s {
        Some(t) => Some(t@),
        None => None,
    }
}

/// The value a stored bound denotes: `Some(None)` when it is absent, `Some(Some(v))` when it
/// is a decimal `i64`, `None` when it is unreadable.
pub open spec fn parsed_bound(s: Option<Seq<char>>) -> Option<Option<i64>> {
    match s {
        None => Some(None),
        Some(c) => match parse_i64_bytes(vstd::utf8::encode_utf8(c)) {
            Some(v) => Some(Some(v)),
            None => None,
        },
    }
}

/// The claim loaded from the stored next and last free ids: `None` when they are corrupt.
pub open spec fn loaded_claim(next: Option<Seq<char>>, last: Option<Seq<char>>) -> Option<Option<(i64, i64)>> {
    match (parsed_bound(next), parsed_bound(last)) {
        (Some(n), Some(l)) => validated_claim(n, l),
        _ => None,
    }
}

/// The next and last free ids as they are stored for a claim: decimal strings, or nothing.
pub open spec fn stored_claim(claim: Option<(i64, i64)>) -> (Option<Seq<char>>, Option<Seq<char>>) {
    match claim {
        Some((n, l)) => (Some(decimal_chars(n as int)), Some(decimal_chars(l as int))),
        None => (None, None),
    }
}

fn parse_bound(s: Option<&str>) -> (r: Result<Option<i64>, LocalObjectIdError>)
    ensures
        match parsed_bound(
            match s {
                Some(t) => Some(t@),
                None => None,
            },
        ) {
            Some(v) => r == Ok::<Option<i64>, LocalObjectIdError>(v),
            None => r matches Err(LocalObjectIdError::Corruption(_)),
        },
{
    match s {
        None => Ok(None),
        Some(t) => match parse_i64(t) {
            Some(v) => Ok(Some(v)),
            None => Err(
                LocalObjectIdError::Corruption("Invalid object id in the claim metadata.".to_string()),
            ),
        },
    }
}

/// Loads the claim from the stored next and last free ids, each a decimal string when present.
pub fn try_load_initial_claim(next_free_id: Option<&str>, last_free_id: Option<&str>) -> (r: Result<
    Option<(i64, i64)>,
    LocalObjectIdError,
>)
    ensures
        match loaded_claim(
            match next_free_id {
                Some(t) => Some(t@),
                None => None,
            },
            match last_free_id {
                Some(t) => Some(t@),
                None => None,
            },
        ) {
            Some(c) => r == Ok::<Option<(i64, i64)>, LocalObjectIdError>(c),
            None => r matches Err(LocalObjectIdError::Corruption(_)),
        },
{
    let next = match parse_bound(next_free_id) {
        Ok(v) => v,
        Err(e) => return Err(e),
    };
    let last = match parse_bound(last_free_id) {
        Ok(v) => v,
        Err(e) => return Err(e),
    };
    validate_initial_claim(next, last)
}

/// The strings under which a claim is stored: its next and last free ids in decimal, or
/// nothing for no claim.
pub fn encode_claim(claim: Option<(i64, i64)>) -> (r: Option<(String, String)>)
    ensures
        match claim {
            Some((n, l)) => r matches Some((a, b)) && a@ == decimal_chars(n as int) && b@
                == decimal_chars(l as int),
            None => r is None,
        },
{
    match claim {
        None => None,
        Some((next_free_id, last_free_id)) => Some((format_i64(next_free_id), format_i64(last_free_id))),
    }
}

/// A claim written to a dictionary is loaded back unchanged when it is valid (`next <= last`),
/// and is refused as corrupt when it is not.
pub proof fn lemma_stored_claim_loads_back(claim: Option<(i64, i64)>)
    ensures
        loaded_claim(stored_claim(claim).0, stored_claim(claim).1) == (match claim {
            Some((n, l)) => if n <= l {
                Some(claim)
            } else {
                None::<Option<(i64, i64)>>
            },
            None => Some(claim),
        }),
{
    if let Some((n, l)) = claim {
        lemma_i64_decimal_roundtrip(n);
        lemma_i64_decimal_roundtrip(l);
    }
}

/// The metadata of an in-memory dictionary: the synced log version and the claim bounds, each
/// kept as a decimal string.
#[derive(Debug, Clone, Default)]
pub struct BackendMetadata {
    pub synced_version: Option<String>,
    pub next_free_id: Option<String>,
    pub last_free_id: Option<String>,
}

fn opt_as_str(s: &Option<String>) -> (r: Option<&str>)
    ensures
        match s {
            Some(t) => r matches Some(u) && u@ == t@,
            None => r is None,
        },
{
    match s {
        Some(t) => Some(t.as_str()),
        None => None,
    }
}

/// Writes a claim into the metadata; no claim removes both bounds.
pub fn write_claim_in_memory(metadata: &mut BackendMetadata, claim: Option<(i64, i64)>)
    ensures
        (opt_chars(final(metadata).next_free_id), opt_chars(final(metadata).last_free_id))
            == stored_claim(claim),
        opt_chars(final(metadata).synced_version) == opt_chars(old(metadata).synced_version),
{
    match encode_claim(claim) {
        None => {
            metadata.next_free_id = None;
            metadata.last_free_id = None;
        },
        Some((next, last)) => {
            metadata.next_free_id = Some(next);
            metadata.last_free_id = Some(last);
        },
    }
}

/// Loads the claim kept in the metadata.
pub fn try_load_initial_claim_in_memory(metadata: &BackendMetadata) -> (r: Result<
    Option<(i64, i64)>,
    LocalObjectIdError,
>)
    ensures
        match loaded_claim(opt_chars(metadata.next_free_id), opt_chars(metadata.last_free_id)) {
            Some(c) => r == Ok::<Option<(i64, i64)>, LocalObjectIdError>(c),
            None => r matches Err(LocalObjectIdError::Corruption(_)),
        },
{
    let next = opt_as_str(&metadata.next_free_id);
    let last = opt_as_str(&metadata.last_free_id);
    try_load_initial_claim(next, last)
}

/// The log version a stored string denotes: `Some(None)` when absent, `Some(Some(v))` for a
/// decimal `u64`, `None` when unreadable.
pub open spec fn parsed_version(s: Option<Seq<char>>) -> Option<Option<u64>> {
    match s {
        None => Some(None),
        Some(c) => match parse_u64_bytes(vstd::utf8::encode_utf8(c)) {
            Some(v) => Some(Some(v)),
            None => None,
        },
    }
}

/// Records the log version the dictionary is synced to.
pub fn write_synced_version(metadata: &mut BackendMetadata, version: u64)
    ensures
        opt_chars(final(metadata).synced_version) == Some(digits_of(version as nat)),
        opt_chars(final(metadata).next_free_id) == opt_chars(old(metadata).next_free_id),
        opt_chars(final(metadata).last_free_id) == opt_chars(old(metadata).last_free_id),
{
    metadata.synced_version = Some(format_u64(version));
}

/// Reads the log version the dictionary is synced to.
pub fn get_synced_version(metadata: &BackendMetadata) -> (r: Result<Option<u64>, LocalObjectIdError>)
    ensures
        match parsed_version(opt_chars(metadata.synced_version)) {
            Some(v) => r == Ok::<Option<u64>, LocalObjectIdError>(v),
            None => r matches Err(LocalObjectIdError::Corruption(_)),
        },
{
    match opt_as_str(&metadata.synced_version) {
        None => Ok(None),
        Some(s) => match parse_u64(s) {
            Some(v) => Ok(Some(v)),
            None => Err(
                LocalObjectIdError::Corruption("Invalid synced version found.".to_string()),
            ),
        },
    }
}

/// A synced version that was written is read back unchanged.
pub proof fn lemma_synced_version_reads_back(version: u64)
    ensures
        parsed_version(Some(digits_of(version as nat))) == Some(Some(version)),
{
    lemma_u64_decimal_roundtrip(version);
}

/// The claim a snapshot reports from the stored bounds: both or neither must be there, each a
/// decimal `i64`; unlike a loaded claim, the order of the bounds is not checked.
pub open spec fn read_claim(next: Option<Seq<char>>, last: Option<Seq<char>>) -> Option<Option<(i64, i64)>> {
    match (parsed_bound(next), parsed_bound(last)) {
        (Some(Some(n)), Some(Some(l))) => Some(Some((n, l))),
        (Some(None), Some(None)) => Some(None),
        _ => None,
    }
}

/// Reads the claimed object ids kept in the metadata.
pub fn read_claimed_object_ids(metadata: &BackendMetadata) -> (r: Result<
    Option<(i64, i64)>,
    LocalObjectIdError,
>)
    ensures
        match read_claim(opt_chars(metadata.next_free_id), opt_chars(metadata.last_free_id)) {
            Some(c) => r == Ok::<Option<(i64, i64)>, LocalObjectIdError>(c),
            None => r matches Err(LocalObjectIdError::Corruption(_)),
        },
{
    match (opt_as_str(&metadata.next_free_id), opt_as_str(&metadata.last_free_id)) {
        (Some(next), Some(last)) => {
            let n = match parse_i64(next) {
                Some(v) => v,
                None => {
                    return Err(
                        LocalObjectIdError::Corruption("Invalid next free id found.".to_string()),
                    )
                },
            };
            let l = match parse_i64(last) {
                Some(v) => v,
                None => {
                    return Err(
                        LocalObjectIdError::Corruption("Invalid last free id found.".to_string()),
                    )
                },
            };
            Ok(Some((n, l)))
        },
        (None, None) => Ok(None),
        _ => Err(
            LocalObjectIdError::Corruption(
                "Found only one of next and last free id.".to_string(),
            ),
        ),
    }
}

/// The id handed out is the first of the newly claimed range, and the rest is the claim.
pub open spec fn starts_new_range(res: NextIdResult, claim: Option<(i64, i64)>) -> bool {
    match res.newly_claimed {
        Some((first, last)) => res.id == first && claim == after_new_range((first, last)),
        None => false,
    }
}

/// The claim bookkeeping of a local dictionary transaction: the claim it hands ids out of, and
/// the claim to restore should it not be committed (the claim it started with, or the range it
/// claimed last, whose ids are then handed out again).
pub struct TransactionClaim<C> {
    claimed_ids: ObjectIdClaim<C>,
    reset_state_on_conflict: Option<(i64, i64)>,
}

impl<C: ObjectIdClaimer> TransactionClaim<C> {
    /// The claim ids are handed out of.
    pub closed spec fn current(&self) -> Option<(i64, i64)> {
        self.claimed_ids.claim()
    }

    /// The claim to restore when the transaction is not committed.
    pub closed spec fn reset_state(&self) -> Option<(i64, i64)> {
        self.reset_state_on_conflict
    }

    /// Starts the bookkeeping of a transaction with the claim loaded from the dictionary.
    pub fn new(initial_claim: Option<(i64, i64)>, claimer: Option<C>) -> (r: Self)
        ensures
            r.current() == initial_claim,
            r.reset_state() == initial_claim,
    {
        TransactionClaim { claimed_ids: ObjectIdClaim::new(initial_claim, claimer), reset_state_on_conflict: initial_claim }
    }

    /// Hands out the next object id; a newly claimed range becomes the claim to restore.
    pub fn acquire_next_id(&mut self) -> (r: Result<NextIdResult, LocalObjectIdError>)
        ensures
            r matches Ok(res) ==> (res.newly_claimed matches Some(range) ==> final(self).reset_state() == Some(range))
                && (res.newly_claimed is None ==> final(self).reset_state() == old(self).reset_state()),
            r is Err ==> final(self).reset_state() == old(self).reset_state(),
            match take_from(old(self).current()) {
                Some((Some(id), left)) => r == Ok::<NextIdResult, LocalObjectIdError>(
                    NextIdResult { id, newly_claimed: None },
                ) && final(self).current() == left,
                _ => true,
            },
            r matches Ok(res) ==> (res.newly_claimed is Some ==> starts_new_range(res, final(self).current())),
    {
        let r = self.claimed_ids.acquire_next_id();
        if let Ok(res) = &r {
            if res.newly_claimed.is_some() {
                self.reset_state_on_conflict = res.newly_claimed;
            }
        }
        r
    }

    /// Records ids that were assigned elsewhere (a batch of the global dictionary): when they
    /// reach into the claim, the claim moves past them and is also what is restored.
    pub fn add_global_ids(&mut self, ids: &[i64])
        ensures
            match claim_after_ids(old(self).current(), ids@) {
                Some(c) => final(self).current() == c && final(self).reset_state() == c,
                None => final(self).current() == old(self).current() && final(self).reset_state()
                    == old(self).reset_state(),
            },
    {
        let current_claim = self.claimed_ids.peek_current_claim();
        if let Some(c) = claim_after_global_ids(current_claim, ids) {
            self.reset_state_on_conflict = c;
            self.claimed_ids.set_claim_state(c);
        }
    }

    /// The claim to write when the transaction commits: what is left of it.
    pub fn claim_to_commit(&self) -> (r: Option<(i64, i64)>)
        ensures
            r == self.current(),
    {
        self.claimed_ids.peek_current_claim()
    }

    /// Aborts: the claim to write is the one to restore, which the transaction also returns to.
    pub fn abort(&mut self) -> (r: Option<(i64, i64)>)
        ensures
            r == old(self).reset_state(),
            final(self).current() == old(self).reset_state(),
            final(self).reset_state() == old(self).reset_state(),
    {
        let reset = self.reset_state_on_conflict;
        self.claimed_ids.set_claim_state(reset);
        reset
    }
}

} // verus!

//! Claiming object id ranges through a file in the object store that holds the next free id.
//!
//! A claim reads the file (the next free id in decimal, or no file for zero), writes back the
//! id after the claimed range with a conditional put, and retries when another node wrote in
//! between. The reading and writing happen outside; [`ClaimAttempt`] decides each step.

use crate::claim::{opt_chars, LocalObjectIdError};
use crate::decimal::{
    decimal_chars, digits_of, format_i64, lemma_i64_decimal_roundtrip, parse_i64, parse_i64_bytes,
};
use crate::term::{str_from_utf8, utf8_error_message};
use vstd::string::StringSliceAdditionalSpecFns;
use vstd::prelude::*;

verus! {

/// How the claimer writes the claim file.
#[derive(Debug, Clone, Copy, PartialEq, Eq, Structural)]
pub enum ObjectIdClaimerPutMode {
    /// Overwrite whatever is there (for a single node).
    AlwaysOverwrite,
    /// Write only over the version that was read, or create the file when there was none.
    EnsureVersion,
}

/// The mode of a put into the object store.
#[derive(Debug, Clone, PartialEq, Eq)]
pub enum ClaimPutMode {
    /// Overwrite unconditionally.
    Overwrite,
    /// Create the file; fail if it exists.
    Create,
    /// Overwrite only the given version.
    Update { e_tag: Option<String>, version: Option<String> },
}

impl ObjectIdClaimerPutMode {
    /// The put mode for writing the claim file, given the version that was read (if a file
    /// was there).
    pub fn put_mode_for(&self, version_info: Option<(Option<String>, Option<String>)>) -> (r: ClaimPutMode)
        ensures
            r == (match *self {
                ObjectIdClaimerPutMode::AlwaysOverwrite => ClaimPutMode::Overwrite,
                ObjectIdClaimerPutMode::EnsureVersion => match version_info {
                    Some((e_tag, version)) => ClaimPutMode::Update { e_tag, version },
                    None => ClaimPutMode::Create,
                },
            }),
    {
        match self {
            ObjectIdClaimerPutMode::AlwaysOverwrite => ClaimPutMode::Overwrite,
            ObjectIdClaimerPutMode::EnsureVersion => match version_info {
                Some((e_tag, version)) => ClaimPutMode::Update { e_tag, version },
                None => ClaimPutMode::Create,
            },
        }
    }
}

/// Whether a character is white space in the sense of Unicode's `White_Space` property.
pub open spec fn is_white_space(c: char) -> bool {
    ||| '\u{9}' <= c <= '\u{d}'
    ||| c == ' '
    ||| c == '\u{85}'
    ||| c == '\u{a0}'
    ||| c == '\u{1680}'
    ||| '\u{2000}' <= c <= '\u{200a}'
    ||| c == '\u{2028}'
    ||| c == '\u{2029}'
    ||| c == '\u{202f}'
    ||| c == '\u{205f}'
    ||| c == '\u{3000}'
}

/// The characters without their leading white space.
pub open spec fn trim_start(s: Seq<char>) -> Seq<char>
    decreases s.len(),
{
    if s.len() > 0 && is_white_space(s[0]) {
        trim_start(s.drop_first())
    } else {
        s
    }
}

/// The characters without their trailing white space.
pub open spec fn trim_end(s: Seq<char>) -> Seq<char>
    decreases s.len(),
{
    if s.len() > 0 && is_white_space(s.last()) {
        trim_end(s.drop_last())
    } else {
        s
    }
}

/// The characters without their leading and trailing white space.
pub open spec fn trimmed(s: Seq<char>) -> Seq<char> {
    trim_end(trim_start(s))
}

/// `str::trim`: the string slice without leading and trailing white space, where white space
/// is what Unicode's `White_Space` property says.
#[verifier::external_body]
fn str_trim(s: &str) -> (r: &str)
    ensures
        r@ == trimmed(s@),
{
    s.trim()
}

/// The next free id that the content of a claim file denotes: UTF-8 text holding a decimal
/// `i64`, perhaps with white space around it.
pub open spec fn claim_content_value(content: Seq<u8>) -> Option<i64> {
    if vstd::utf8::valid_utf8(content) {
        parse_i64_bytes(vstd::utf8::encode_utf8(trimmed(vstd::utf8::decode_utf8(content))))
    } else {
        None
    }
}

/// The text of the error that `str::parse::<i64>` gives for text that is not a decimal `i64`.
pub uninterp spec fn int_parse_error_message(s: Seq<char>) -> Seq<char>;

/// `str::parse::<i64>` on text that is not a decimal `i64` (an optional sign, then digits,
/// within range): the text of its error (its `Display`). The text is std's and is left unsaid
/// here; only that it depends on the text alone is claimed.
#[verifier::external_body]
fn int_parse_error_text(s: &str) -> (r: String)
    requires
        parse_i64_bytes(s.spec_bytes()) is None,
    ensures
        r@ == int_parse_error_message(s@),
{
    match s.parse::<i64>() {
        Err(e) => e.to_string(),
        Ok(_) => String::new(),
    }
}

/// Why the content of a claim file holds no next free id: the text of the UTF-8 error, or
/// that of the integer parse error of the trimmed text.
pub open spec fn claim_content_error(content: Seq<u8>) -> Seq<char> {
    if vstd::utf8::valid_utf8(content) {
        int_parse_error_message(trimmed(vstd::utf8::decode_utf8(content)))
    } else {
        utf8_error_message(content)
    }
}

/// Reads the next free id from the content of the claim file.
pub fn parse_claim_content(content: &[u8]) -> (r: Result<i64, LocalObjectIdError>)
    ensures
        match claim_content_value(content@) {
            Some(v) => r == Ok::<i64, LocalObjectIdError>(v),
            None => r matches Err(LocalObjectIdError::ObjectIdClaimer(m)) && m@ == claim_content_error(content@),
        },
{
    match str_from_utf8(content) {
        Err(e) => Err(LocalObjectIdError::ObjectIdClaimer(e)),
        Ok(text) => {
            proof {
                broadcast use vstd::utf8::decode_utf8_encode_utf8, vstd::utf8::encode_utf8_decode_utf8;

                assert(vstd::utf8::decode_utf8(content@) == text@);
            }
            let t = str_trim(text);
            match parse_i64(t) {
                Some(v) => Ok(v),
                None => {
                    proof {
                        broadcast use vstd::utf8::encode_utf8_decode_utf8;

                        assert(vstd::utf8::encode_utf8(t@) == t.spec_bytes());
                    }
                    Err(LocalObjectIdError::ObjectIdClaimer(int_parse_error_text(t)))
                },
            }
        },
    }
}

/// How many conflicting writes a claim tolerates before it gives up.
pub const MAX_CLAIM_RETRIES: u32 = 10;

/// What reading the claim file gave.
#[derive(Debug, Clone, PartialEq, Eq)]
pub enum ClaimFileRead {
    /// The file, with its version.
    Found { content: Vec<u8>, e_tag: Option<String>, version: Option<String> },
    /// There is no file yet.
    NotFound,
    /// Reading failed.
    Failed(String),
}

/// What writing the claim file gave.
#[derive(Debug, Clone, PartialEq, Eq)]
pub enum ClaimFilePut {
    /// The file was written.
    Written,
    /// The store does not support conditional writes.
    NotSupported,
    /// Another node wrote the file in between.
    Conflict,
    /// Writing failed.
    Failed(String),
}

/// What the claimer does next.
#[derive(Debug, PartialEq, Eq)]
pub enum ClaimAction {
    /// Read the claim file.
    Read,
    /// Write the next free id to the claim file in the given mode.
    Put { payload: String, mode: ClaimPutMode },
    /// The claim is over: the claimed range `(first, last)`, or why it failed.
    Finished(Result<(i64, i64), LocalObjectIdError>),
}

/// The range a claim of `size` ids takes when the next free id is `current`, and the next
/// free id after it: `None` when that leaves the range of `i64`.
pub open spec fn claim_bounds(current: i64, size: i64) -> Option<(i64, i64, i64)> {
    let next_free = current + size;
    if i64::MIN <= next_free <= i64::MAX && i64::MIN <= next_free - 1 {
        Some((current, (next_free - 1) as i64, next_free as i64))
    } else {
        None
    }
}

/// Whether the action writes the given next free id in the given mode.
pub open spec fn puts(r: ClaimAction, next_free: i64, mode: ClaimPutMode) -> bool {
    r matches ClaimAction::Put { payload, mode: m } && payload@ == decimal_chars(next_free as int) && m == mode
}

/// The characters without their leading double quotes.
pub open spec fn trim_quote_start(s: Seq<char>) -> Seq<char>
    decreases s.len(),
{
    if s.len() > 0 && s[0] == '"' {
        trim_quote_start(s.drop_first())
    } else {
        s
    }
}

/// The characters without their trailing double quotes.
pub open spec fn trim_quote_end(s: Seq<char>) -> Seq<char>
    decreases s.len(),
{
    if s.len() > 0 && s.last() == '"' {
        trim_quote_end(s.drop_last())
    } else {
        s
    }
}

/// An entity tag without the double quotes around it.
pub open spec fn quotes_trimmed(s: Seq<char>) -> Seq<char> {
    trim_quote_end(trim_quote_start(s))
}

/// An optional entity tag without the double quotes around it.
pub open spec fn opt_quotes_trimmed(o: Option<String>) -> Option<Seq<char>> {
    match o {
        Some(t) => Some(quotes_trimmed(t@)),
        None => None,
    }
}

/// Whether the action writes the given next free id over the version that was read, in the
/// given mode: overwriting, or updating that version (its entity tag without quotes).
pub open spec fn puts_over(
    r: ClaimAction,
    next_free: i64,
    mode: ObjectIdClaimerPutMode,
    e_tag: Option<String>,
    version: Option<String>,
) -> bool {
    r matches ClaimAction::Put { payload, mode: m } && payload@ == decimal_chars(next_free as int) && match mode {
        ObjectIdClaimerPutMode::AlwaysOverwrite => m == ClaimPutMode::Overwrite,
        ObjectIdClaimerPutMode::EnsureVersion => m matches ClaimPutMode::Update { e_tag: e2, version: v2 }
            && v2 == version && opt_chars(e2) == opt_quotes_trimmed(e_tag),
    }
}

/// An entity tag without the double quotes around it.
pub fn trim_quotes(s: &str) -> (r: String)
    ensures
        r@ == quotes_trimmed(s@),
{
    let n = s.unicode_len();
    let mut i: usize = 0;
    assert(s@.subrange(0, n as int) =~= s@);
    while i < n && s.get_char(i) == '"'
        invariant
            n == s@.len(),
            i <= n,
            trim_quote_start(s@) == trim_quote_start(s@.subrange(i as int, n as int)),
        decreases n - i,
    {
        assert(s@.subrange(i as int, n as int).drop_first() =~= s@.subrange(i as int + 1, n as int));
        i = i + 1;
    }
    proof {
        if i == n {
            assert(s@.subrange(i as int, n as int).len() == 0);
        }
    }
    let mut j: usize = n;
    while j > i && s.get_char(j - 1) == '"'
        invariant
            n == s@.len(),
            i <= j <= n,
            trim_quote_start(s@) == s@.subrange(i as int, n as int),
            quotes_trimmed(s@) == trim_quote_end(s@.subrange(i as int, j as int)),
        decreases j - i,
    {
        assert(s@.subrange(i as int, j as int).drop_last() =~= s@.subrange(i as int, j as int - 1));
        j = j - 1;
    }
    s.substring_char(i, j).to_owned()
}

/// Whether the action ends the claim because of too many conflicts.
pub open spec fn gives_up(r: ClaimAction) -> bool {
    r matches ClaimAction::Finished(Err(LocalObjectIdError::ObjectIdClaimer(m))) && m@ == retries_exceeded_message()
}

/// One claim of an object id range, step by step.
#[derive(Debug, Clone)]
pub struct ClaimAttempt {
    claim_size: i64,
    put_mode: ObjectIdClaimerPutMode,
    retries: u32,
    pending: Option<(i64, i64)>,
}

/// The message of a claim that gave up after too many conflicts.
pub open spec fn retries_exceeded_message() -> Seq<char> {
    "Exceeded maximum retries (10) for claiming object IDs"@
}

impl ClaimAttempt {
    /// The number of conflicting writes so far.
    pub closed spec fn retries(&self) -> u32 {
        self.retries
    }

    /// The range that the last decided write would claim.
    pub closed spec fn pending(&self) -> Option<(i64, i64)> {
        self.pending
    }

    /// The number of ids each claim takes.
    pub closed spec fn size(&self) -> i64 {
        self.claim_size
    }

    /// The mode in which the claim file is written.
    pub closed spec fn mode(&self) -> ObjectIdClaimerPutMode {
        self.put_mode
    }

    /// The range that the last decided write would claim, if a write is pending.
    pub fn pending_claim(&self) -> (r: Option<(i64, i64)>)
        ensures
            r == self.pending(),
    {
        self.pending
    }

    /// The number of conflicting writes so far.
    pub fn retry_count(&self) -> (r: u32)
        ensures
            r == self.retries(),
    {
        self.retries
    }

    /// Starts a claim of `claim_size` ids: the first step is to read the claim file.
    pub fn new(claim_size: i64, put_mode: ObjectIdClaimerPutMode) -> (r: (Self, ClaimAction))
        ensures
            r.0.retries() == 0,
            r.0.pending() is None,
            r.0.size() == claim_size,
            r.0.mode() == put_mode,
            r.1 == ClaimAction::Read,
    {
        (ClaimAttempt { claim_size, put_mode, retries: 0, pending: None }, ClaimAction::Read)
    }

    /// Decides what to write after reading the claim file: the id after the claimed range, in
    /// the put mode for the version that was read.
    pub fn on_read(&mut self, read: ClaimFileRead) -> (r: ClaimAction)
        ensures
            final(self).retries() == old(self).retries(),
            final(self).size() == old(self).size(),
            final(self).mode() == old(self).mode(),
            match read {
                ClaimFileRead::Failed(e) => r == ClaimAction::Finished(Err(LocalObjectIdError::ObjectIdClaimer(e))),
                ClaimFileRead::NotFound => match claim_bounds(0, old(self).size()) {
                    Some((first, last, next_free)) => final(self).pending() == Some((first, last))
                        && puts(r, next_free, old(self).mode().spec_put_mode_for(None)),
                    None => r matches ClaimAction::Finished(Err(LocalObjectIdError::ObjectIdClaimer(_))),
                },
                ClaimFileRead::Found { content, e_tag, version } => match claim_content_value(content@) {
                    None => r matches ClaimAction::Finished(Err(LocalObjectIdError::ObjectIdClaimer(_))),
                    Some(current) => match claim_bounds(current, old(self).size()) {
                        Some((first, last, next_free)) => final(self).pending() == Some((first, last))
                            && puts_over(r, next_free, old(self).mode(), e_tag, version),
                        None => r matches ClaimAction::Finished(Err(LocalObjectIdError::ObjectIdClaimer(_))),
                    },
                },
            },
    {
        let (current_id, version_info) = match read {
            ClaimFileRead::Failed(e) => return ClaimAction::Finished(Err(LocalObjectIdError::ObjectIdClaimer(e))),
            ClaimFileRead::NotFound => (0i64, None),
            ClaimFileRead::Found { content, e_tag, version } => match parse_claim_content(content.as_slice()) {
                Ok(id) => {
                    let tag = match e_tag {
                        Some(t) => Some(trim_quotes(t.as_str())),
                        None => None,
                    };
                    (id, Some((tag, version)))
                },
                Err(e) => return ClaimAction::Finished(Err(e)),
            },
        };
        let next_free_id = match current_id.checked_add(self.claim_size) {
            Some(v) => v,
            None => {
                return ClaimAction::Finished(
                    Err(LocalObjectIdError::ObjectIdClaimer("The claimed object id range overflows.".to_string())),
                )
            },
        };
        let next_id = match next_free_id.checked_sub(1) {
            Some(v) => v,
            None => {
                return ClaimAction::Finished(
                    Err(LocalObjectIdError::ObjectIdClaimer("The claimed object id range overflows.".to_string())),
                )
            },
        };
        self.pending = Some((current_id, next_id));
        let mode = self.put_mode.put_mode_for(version_info);
        ClaimAction::Put { payload: format_i64(next_free_id), mode }
    }

    /// Decides what follows a write of the claim file: the claim is done, fails, or starts
    /// over with a new read after a conflict (at most [`MAX_CLAIM_RETRIES`] times).
    pub fn on_put(&mut self, put: ClaimFilePut) -> (r: ClaimAction)
        requires
            old(self).pending() is Some,
            old(self).retries() < MAX_CLAIM_RETRIES,
        ensures
            final(self).size() == old(self).size(),
            final(self).mode() == old(self).mode(),
            match put {
                ClaimFilePut::Written => r == ClaimAction::Finished(Ok(old(self).pending()->0))
                    && final(self).retries() == old(self).retries(),
                ClaimFilePut::NotSupported => r matches ClaimAction::Finished(Err(LocalObjectIdError::ObjectIdClaimer(_))),
                ClaimFilePut::Failed(e) => r == ClaimAction::Finished(Err(LocalObjectIdError::ObjectIdClaimer(e))),
                ClaimFilePut::Conflict => final(self).retries() == old(self).retries() + 1
                    && final(self).pending() is None
                    && (final(self).retries() < MAX_CLAIM_RETRIES ==> r == ClaimAction::Read)
                    && (final(self).retries() >= MAX_CLAIM_RETRIES ==> gives_up(r)),
            },
    {
        match put {
            ClaimFilePut::Written => {
                let range = match self.pending {
                    Some(r) => r,
                    None => (0, 0),
                };
                ClaimAction::Finished(Ok(range))
            },
            ClaimFilePut::NotSupported => ClaimAction::Finished(
                Err(
                    LocalObjectIdError::ObjectIdClaimer(
                        "The object store does not support conditional puts. If you are running a single node, you can set the RDF_FUSION_STORAGE_DELTA_ASSUME_SINGLE_NODE=true environment variable to bypass this check.".to_string(),
                    ),
                ),
            ),
            ClaimFilePut::Failed(e) => ClaimAction::Finished(Err(LocalObjectIdError::ObjectIdClaimer(e))),
            ClaimFilePut::Conflict => {
                self.retries = self.retries + 1;
                self.pending = None;
                if self.retries >= MAX_CLAIM_RETRIES {
                    ClaimAction::Finished(
                        Err(
                            LocalObjectIdError::ObjectIdClaimer(
                                "Exceeded maximum retries (10) for claiming object IDs".to_string(),
                            ),
                        ),
                    )
                } else {
                    ClaimAction::Read
                }
            },
        }
    }
}

impl ObjectIdClaimerPutMode {
    /// The put mode for writing the claim file.
    pub open spec fn spec_put_mode_for(self, version_info: Option<(Option<String>, Option<String>)>) -> ClaimPutMode {
        match self {
            ObjectIdClaimerPutMode::AlwaysOverwrite => ClaimPutMode::Overwrite,
            ObjectIdClaimerPutMode::EnsureVersion => match version_info {
                Some((e_tag, version)) => ClaimPutMode::Update { e_tag, version },
                None => ClaimPutMode::Create,
            },
        }
    }
}

proof fn lemma_digits_not_white(n: nat)
    ensures
        digits_of(n).len() > 0,
        forall|i: int| 0 <= i < digits_of(n).len() ==> '0' <= #[trigger] digits_of(n)[i] <= '9',
    decreases n,
{
    if n >= 10 {
        lemma_digits_not_white(n / 10);
    }
}

/// Decimal text has no white space around it, so trimming keeps it.
proof fn lemma_decimal_trimmed(n: i64)
    ensures
        trimmed(decimal_chars(n as int)) == decimal_chars(n as int),
{
    let c = decimal_chars(n as int);
    let m: nat = if n < 0 {
        (-n) as nat
    } else {
        n as nat
    };
    lemma_digits_not_white(m);
    assert(c.len() > 0);
    assert(!is_white_space(c[0]));
    assert(trim_start(c) == c);
    assert(c.last() == digits_of(m).last());
    assert(!is_white_space(c.last()));
    assert(trim_end(c) == c);
}

/// A claim of `size` ids from the next free id `current` takes the ids `current` up to the
/// one before the id it writes back, and reading the file it writes gives that id, so the
/// next claim starts right after this one.
pub proof fn lemma_claims_are_adjacent(current: i64, size: i64)
    requires
        claim_bounds(current, size) is Some,
    ensures
        ({
            let (first, last, next_free) = claim_bounds(current, size)->0;
            &&& first == current
            &&& last - first + 1 == size
            &&& next_free == last + 1
            &&& claim_content_value(vstd::utf8::encode_utf8(decimal_chars(next_free as int))) == Some(next_free)
        }),
{
    broadcast use vstd::utf8::encode_utf8_valid_utf8, vstd::utf8::encode_utf8_decode_utf8;

    let (first, last, next_free) = claim_bounds(current, size)->0;
    lemma_decimal_trimmed(next_free);
    lemma_i64_decimal_roundtrip(next_free);
    assert(vstd::utf8::decode_utf8(vstd::utf8::encode_utf8(decimal_chars(next_free as int))) == decimal_chars(next_free as int));
}

} // verus!

//! Dictionary terms and their byte encoding as keys and values of the key-value store.
//!
//! An encoded term is laid out as
//! `[type: 1][value length: u32 LE][data type length: i32 LE][language length: i32 LE]`
//! followed by the value, the data type and the language bytes. A length of `-1` marks an
//! absent data type or language.

use crate::bytes::{
    append_bytes, append_le32, byte_as_i8, byte_to_i8, i32_at, i8_as_byte, i8_to_byte, le32,
    lemma_i8_byte_roundtrip, lemma_le32_roundtrip, lemma_lex_order_from_antisymmetric, lemma_u32_field,
    lemma_lex_order_from_zero, lex_order, lex_order_at, lex_order_opt, order_int, read_i32_le,
    read_u32_le, u32_at,
};
use std::cmp::Ordering;
use vstd::string::StringSliceAdditionalSpecFns;
use vstd::prelude::*;

verus! {

/// A term at the level of its UTF-8 bytes.
pub struct TermBytes {
    pub term_type: i8,
    pub value: Seq<u8>,
    pub data_type: Option<Seq<u8>>,
    pub language: Option<Seq<u8>>,
}

/// The UTF-8 bytes of an optional string.
pub open spec fn opt_str_bytes(o: Option<&str>) -> Option<Seq<u8>> {
    match o {
        Some(s) => Some(s.spec_bytes()),
        None => None,
    }
}

/// The UTF-8 bytes of an optional owned string.
pub open spec fn opt_string_bytes(o: Option<String>) -> Option<Seq<u8>> {
    match o {
        Some(s) => Some(vstd::utf8::encode_utf8(s@)),
        None => None,
    }
}

/// Represents a term stored in the local dictionary.
#[derive(Clone, Debug, PartialEq, Eq, Hash)]
pub struct LocalDictionaryTerm {
    pub term_type: i8,
    pub value: String,
    pub data_type: Option<String>,
    pub language: Option<String>,
}

impl LocalDictionaryTerm {
    /// The term at the level of its UTF-8 bytes.
    pub open spec fn bytes_view(self) -> TermBytes {
        TermBytes {
            term_type: self.term_type,
            value: vstd::utf8::encode_utf8(self.value@),
            data_type: opt_string_bytes(self.data_type),
            language: opt_string_bytes(self.language),
        }
    }
}

/// A borrowed representation of [`LocalDictionaryTerm`] used for zero-copy key/value storage
/// and cache lookups without unnecessary `String` allocations.
#[derive(Clone, Copy, Debug, PartialEq, Eq, PartialOrd, Ord, Hash)]
pub struct RedbTerm<'a> {
    pub term_type: i8,
    pub value: &'a str,
    pub data_type: Option<&'a str>,
    pub language: Option<&'a str>,
}

/// The length of a field as the 32 bits that the encoding keeps of it.
pub open spec fn len32(len: nat) -> nat {
    len % 4294967296
}

/// The length field of an optional string: its length, or `-1` when absent.
pub open spec fn opt_len_field(o: Option<Seq<u8>>) -> Seq<u8> {
    match o {
        Some(b) => le32(len32(b.len())),
        None => le32(4294967295),
    }
}

/// The payload of an optional string (empty when absent).
pub open spec fn opt_payload(o: Option<Seq<u8>>) -> Seq<u8> {
    match o {
        Some(b) => b,
        None => seq![],
    }
}

/// The encoding of a term.
pub open spec fn encode_term(t: TermBytes) -> Seq<u8> {
    seq![i8_to_byte(t.term_type)] + le32(len32(t.value.len())) + opt_len_field(t.data_type)
        + opt_len_field(t.language) + t.value + opt_payload(t.data_type) + opt_payload(
        t.language,
    )
}

/// Where the value of an encoded term ends.
pub open spec fn value_end(d: Seq<u8>) -> int {
    13 + u32_at(d, 1) as int
}

/// Where the data type of an encoded term ends.
pub open spec fn data_type_end(d: Seq<u8>) -> int {
    if i32_at(d, 5) >= 0 {
        value_end(d) + i32_at(d, 5)
    } else {
        value_end(d)
    }
}

/// Where the language of an encoded term ends.
pub open spec fn language_end(d: Seq<u8>) -> int {
    if i32_at(d, 9) >= 0 {
        data_type_end(d) + i32_at(d, 9)
    } else {
        data_type_end(d)
    }
}

/// The header and every field that the header announces lie within `d`.
pub open spec fn term_in_bounds(d: Seq<u8>) -> bool {
    d.len() >= 13 && language_end(d) <= d.len()
}

/// The term that the bytes `d` encode (meaningful when `term_in_bounds(d)`).
pub open spec fn decode_term(d: Seq<u8>) -> TermBytes {
    TermBytes {
        term_type: byte_to_i8(d[0]),
        value: d.subrange(13, value_end(d)),
        data_type: if i32_at(d, 5) >= 0 {
            Some(d.subrange(value_end(d), data_type_end(d)))
        } else {
            None
        },
        language: if i32_at(d, 9) >= 0 {
            Some(d.subrange(data_type_end(d), language_end(d)))
        } else {
            None
        },
    }
}

/// Every string field of a byte-level term is valid UTF-8.
pub open spec fn term_utf8(t: TermBytes) -> bool {
    &&& vstd::utf8::valid_utf8(t.value)
    &&& (t.data_type matches Some(b) ==> vstd::utf8::valid_utf8(b))
    &&& (t.language matches Some(b) ==> vstd::utf8::valid_utf8(b))
}

/// The bytes `d` encode a term whose strings are valid UTF-8.
pub open spec fn term_decodable(d: Seq<u8>) -> bool {
    term_in_bounds(d) && term_utf8(decode_term(d))
}

/// The field lengths of a term fit its encoding: the value is shorter than 2^32 bytes, the
/// data type and the language are shorter than 2^31 bytes.
pub open spec fn term_fits(t: TermBytes) -> bool {
    &&& t.value.len() < 4294967296
    &&& (t.data_type matches Some(b) ==> b.len() < 2147483648)
    &&& (t.language matches Some(b) ==> b.len() < 2147483648)
}

/// The order of terms: by type, then value, then data type, then language, where strings are
/// ordered by their bytes and an absent string comes first.
pub open spec fn term_order(a: TermBytes, b: TermBytes) -> int {
    if a.term_type != b.term_type {
        order_int(a.term_type as int, b.term_type as int)
    } else if lex_order(a.value, b.value) != 0 {
        lex_order(a.value, b.value)
    } else if lex_order_opt(a.data_type, b.data_type) != 0 {
        lex_order_opt(a.data_type, b.data_type)
    } else {
        lex_order_opt(a.language, b.language)
    }
}

/// The order that an [`Ordering`] denotes: `-1`, `0` or `1`.
pub open spec fn ordering_value(o: Ordering) -> int {
    match o {
        Ordering::Less => -1,
        Ordering::Equal => 0,
        Ordering::Greater => 1,
    }
}

/// The text of the error that `core::str::from_utf8` gives for bytes that are not UTF-8.
pub uninterp spec fn utf8_error_message(b: Seq<u8>) -> Seq<char>;

/// Wraps `core::str::from_utf8`: the result is `Ok` exactly when the bytes are valid UTF-8,
/// and then it is the string slice whose bytes are exactly the given ones (the slice borrows
/// the input without copying); otherwise it is the text of std's error (its `Display`), which
/// is left unsaid here but for depending on the bytes alone.
#[verifier::external_body]
pub(crate) fn str_from_utf8<'a>(bytes: &'a [u8]) -> (r: Result<&'a str, String>)
    ensures
        r is Ok <==> vstd::utf8::valid_utf8(bytes@),
        r matches Ok(s) ==> s.spec_bytes() == bytes@,
        r matches Err(m) ==> m@ == utf8_error_message(bytes@),
{
    match core::str::from_utf8(bytes) {
        Ok(s) => Ok(s),
        Err(e) => Err(e.to_string()),
    }
}

/// Decodes a string slice from bytes that are known to be valid UTF-8.
fn utf8_slice<'a>(bytes: &'a [u8]) -> (r: &'a str)
    requires
        vstd::utf8::valid_utf8(bytes@),
    ensures
        r.spec_bytes() == bytes@,
{
    match str_from_utf8(bytes).ok() {
        Some(s) => s,
        None => {
            proof {
                assert(false);
            }
            ""
        },
    }
}

/// The start and the end of the data type and of the language in an encoded term.
struct FieldBounds {
    value_end: usize,
    data_type_end: usize,
    language_end: usize,
    has_data_type: bool,
    has_language: bool,
}

/// Reads the header of an encoded term and computes where its fields lie.
fn field_bounds(d: &[u8]) -> (r: FieldBounds)
    requires
        term_in_bounds(d@),
    ensures
        r.value_end == value_end(d@),
        r.data_type_end == data_type_end(d@),
        r.language_end == language_end(d@),
        r.has_data_type == (i32_at(d@, 5) >= 0),
        r.has_language == (i32_at(d@, 9) >= 0),
{
    let val_len = read_u32_le(d, 1) as usize;
    let dt_len = read_i32_le(d, 5);
    let lang_len = read_i32_le(d, 9);
    let n = d.len();
    assert(value_end(d@) <= data_type_end(d@) <= language_end(d@) <= n);
    let v_end = 13 + val_len;
    let dt_end = if dt_len >= 0 {
        v_end + dt_len as usize
    } else {
        v_end
    };
    let lang_end = if lang_len >= 0 {
        dt_end + lang_len as usize
    } else {
        dt_end
    };
    FieldBounds {
        value_end: v_end,
        data_type_end: dt_end,
        language_end: lang_end,
        has_data_type: dt_len >= 0,
        has_language: lang_len >= 0,
    }
}

/// The type byte of an encoded term as a signed byte.
fn term_type_of(d: &[u8]) -> (r: i8)
    requires
        d@.len() >= 1,
    ensures
        r == byte_to_i8(d@[0]),
{
    byte_as_i8(d[0])
}

/// The value, data type and language bytes of an encoded term.
fn term_slices(d: &[u8]) -> (r: (&[u8], Option<&[u8]>, Option<&[u8]>))
    requires
        term_in_bounds(d@),
    ensures
        r.0@ == decode_term(d@).value,
        (match r.1 {
            Some(s) => Some(s@),
            None => None::<Seq<u8>>,
        }) == decode_term(d@).data_type,
        (match r.2 {
            Some(s) => Some(s@),
            None => None::<Seq<u8>>,
        }) == decode_term(d@).language,
{
    let b = field_bounds(d);
    let value = &d[13..b.value_end];
    let data_type = if b.has_data_type {
        Some(&d[b.value_end..b.data_type_end])
    } else {
        None
    };
    let language = if b.has_language {
        Some(&d[b.data_type_end..b.language_end])
    } else {
        None
    };
    (value, data_type, language)
}

/// Appends the length field of an optional string: its length, or `-1` when absent.
fn append_opt_len(buf: &mut Vec<u8>, o: Option<&str>)
    ensures
        final(buf)@ == old(buf)@ + opt_len_field(opt_str_bytes(o)),
{
    match o {
        Some(s) => {
            let len = s.as_bytes().len();
            let field = (len as u64 % 4294967296) as u32;
            append_le32(buf, field);
        },
        None => {
            append_le32(buf, 4294967295);
        },
    }
}

/// Appends the bytes of an optional string (nothing when absent).
fn append_opt_payload(buf: &mut Vec<u8>, o: Option<&str>)
    ensures
        final(buf)@ == old(buf)@ + opt_payload(opt_str_bytes(o)),
{
    match o {
        Some(s) => {
            append_bytes(buf, s.as_bytes());
        },
        None => {
            assert(buf@ =~= old(buf)@ + seq![]);
        },
    }
}

impl<'a> RedbTerm<'a> {
    /// The term at the level of its UTF-8 bytes.
    pub open spec fn bytes_view(self) -> TermBytes {
        TermBytes {
            term_type: self.term_type,
            value: self.value.spec_bytes(),
            data_type: opt_str_bytes(self.data_type),
            language: opt_str_bytes(self.language),
        }
    }

    /// Encodes the term.
    pub fn as_bytes(value: &RedbTerm) -> (r: Vec<u8>)
        ensures
            r@ == encode_term(value.bytes_view()),
    {
        let mut buf: Vec<u8> = Vec::new();
        buf.push(i8_as_byte(value.term_type));
        let val_bytes = value.value.as_bytes();
        let val_len = (val_bytes.len() as u64 % 4294967296) as u32;
        append_le32(&mut buf, val_len);
        append_opt_len(&mut buf, value.data_type);
        append_opt_len(&mut buf, value.language);
        append_bytes(&mut buf, val_bytes);
        append_opt_payload(&mut buf, value.data_type);
        append_opt_payload(&mut buf, value.language);
        assert(buf@ =~= encode_term(value.bytes_view()));
        buf
    }

    /// Decodes a term from its encoding, borrowing its strings from `data`.
    pub fn from_bytes<'b>(data: &'b [u8]) -> (r: RedbTerm<'b>)
        requires
            term_decodable(data@),
        ensures
            r.bytes_view() == decode_term(data@),
    {
        let term_type = term_type_of(data);
        let (value, data_type, language) = term_slices(data);
        let value = utf8_slice(value);
        let data_type = match data_type {
            Some(s) => Some(utf8_slice(s)),
            None => None,
        };
        let language = match language {
            Some(s) => Some(utf8_slice(s)),
            None => None,
        };
        RedbTerm { term_type, value, data_type, language }
    }
}


/// Compares two byte slices lexicographically.
fn compare_byte_slices(a: &[u8], b: &[u8]) -> (r: Ordering)
    ensures
        ordering_value(r) == lex_order(a@, b@),
{
    let na = a.len();
    let nb = b.len();
    let mut i: usize = 0;
    while i < na && i < nb
        invariant
            na == a@.len(),
            nb == b@.len(),
            i <= na,
            i <= nb,
            lex_order(a@, b@) == lex_order_at(a@, b@, i),
        decreases na - i,
    {
        if a[i] < b[i] {
            return Ordering::Less;
        }
        if a[i] > b[i] {
            return Ordering::Greater;
        }
        i = i + 1;
    }
    if na == nb {
        Ordering::Equal
    } else if i == na {
        Ordering::Less
    } else {
        Ordering::Greater
    }
}

/// The bytes of an optional slice.
pub open spec fn opt_slice_view(o: Option<&[u8]>) -> Option<Seq<u8>> {
    match o {
        Some(s) => Some(s@),
        None => None,
    }
}

/// Compares two optional byte slices: absent before present, present ones lexicographically.
fn compare_opt_slices(a: Option<&[u8]>, b: Option<&[u8]>) -> (r: Ordering)
    ensures
        ordering_value(r) == lex_order_opt(opt_slice_view(a), opt_slice_view(b)),
{
    match (a, b) {
        (None, None) => Ordering::Equal,
        (None, Some(_)) => Ordering::Less,
        (Some(_), None) => Ordering::Greater,
        (Some(x), Some(y)) => compare_byte_slices(x, y),
    }
}

/// Whether an ordering is `Equal`.
fn is_equal_ordering(o: Ordering) -> (r: bool)
    ensures
        r == (ordering_value(o) == 0),
{
    match o {
        Ordering::Equal => true,
        _ => false,
    }
}

impl<'a> RedbTerm<'a> {
    /// Whether the header of an encoded term and every field that it announces lie within the
    /// bytes.
    pub fn in_bounds(data: &[u8]) -> (r: bool)
        ensures
            r == term_in_bounds(data@),
    {
        let n = data.len();
        if n < 13 {
            return false;
        }
        let val_len = read_u32_le(data, 1) as u64;
        let dt_len = read_i32_le(data, 5);
        let lang_len = read_i32_le(data, 9);
        let v_end: u64 = 13 + val_len;
        let dt_end: u64 = if dt_len >= 0 {
            v_end + dt_len as u64
        } else {
            v_end
        };
        let lang_end: u64 = if lang_len >= 0 {
            dt_end + lang_len as u64
        } else {
            dt_end
        };
        lang_end <= n as u64
    }

    /// Decodes a term from its encoding when the bytes encode one whose strings are valid
    /// UTF-8, borrowing its strings from `data`.
    pub fn try_from_bytes<'b>(data: &'b [u8]) -> (r: Option<RedbTerm<'b>>)
        ensures
            r is Some <==> term_decodable(data@),
            r matches Some(t) ==> t.bytes_view() == decode_term(data@),
    {
        if !Self::in_bounds(data) {
            return None;
        }
        let (value, data_type, language) = term_slices(data);
        let value = match str_from_utf8(value).ok() {
            Some(s) => s,
            None => return None,
        };
        let data_type = match data_type {
            Some(b) => match str_from_utf8(b).ok() {
                Some(s) => Some(s),
                None => return None,
            },
            None => None,
        };
        let language = match language {
            Some(b) => match str_from_utf8(b).ok() {
                Some(s) => Some(s),
                None => return None,
            },
            None => None,
        };
        Some(RedbTerm { term_type: term_type_of(data), value, data_type, language })
    }
}

impl<'a> RedbTerm<'a> {
    /// Compares two encoded terms without decoding their strings: by type, then value, then
    /// data type, then language.
    pub fn compare(data1: &[u8], data2: &[u8]) -> (r: Ordering)
        requires
            term_in_bounds(data1@),
            term_in_bounds(data2@),
        ensures
            ordering_value(r) == term_order(decode_term(data1@), decode_term(data2@)),
    {
        let t1 = term_type_of(data1);
        let t2 = term_type_of(data2);
        if t1 < t2 {
            return Ordering::Less;
        }
        if t1 > t2 {
            return Ordering::Greater;
        }
        let (val1, dt1, lang1) = term_slices(data1);
        let (val2, dt2, lang2) = term_slices(data2);
        let by_value = compare_byte_slices(val1, val2);
        if !is_equal_ordering(by_value) {
            return by_value;
        }
        let by_data_type = compare_opt_slices(dt1, dt2);
        if !is_equal_ordering(by_data_type) {
            return by_data_type;
        }
        compare_opt_slices(lang1, lang2)
    }
}

/// Decoding the encoding of a term whose fields fit gives back the term; the encoding lies
/// within bounds.
#[verifier::spinoff_prover]
pub proof fn lemma_decode_encode(t: TermBytes)
    requires
        term_fits(t),
    ensures
        term_in_bounds(encode_term(t)),
        decode_term(encode_term(t)) == t,
{
    let d = encode_term(t);
    let vlen = t.value.len();
    let dlen = opt_payload(t.data_type).len();
    let llen = opt_payload(t.language).len();
    lemma_le32_roundtrip(len32(vlen));
    lemma_le32_roundtrip(len32(dlen));
    lemma_le32_roundtrip(len32(llen));
    lemma_le32_roundtrip(4294967295);
    let h = seq![i8_to_byte(t.term_type)] + le32(len32(vlen)) + opt_len_field(t.data_type)
        + opt_len_field(t.language);
    assert(h.len() == 13);
    assert(d =~= h + t.value + opt_payload(t.data_type) + opt_payload(t.language));
    assert(d.subrange(1, 5) =~= le32(len32(vlen)));
    assert(d.subrange(5, 9) =~= opt_len_field(t.data_type));
    assert(d.subrange(9, 13) =~= opt_len_field(t.language));
    lemma_u32_field(d, 1, len32(vlen));
    if t.data_type is Some {
        lemma_u32_field(d, 5, len32(dlen));
        assert(i32_at(d, 5) == dlen);
    } else {
        lemma_u32_field(d, 5, 4294967295);
        assert(i32_at(d, 5) == -1);
    }
    if t.language is Some {
        lemma_u32_field(d, 9, len32(llen));
        assert(i32_at(d, 9) == llen);
    } else {
        lemma_u32_field(d, 9, 4294967295);
        assert(i32_at(d, 9) == -1);
    }
    assert(value_end(d) == 13 + vlen);
    assert(data_type_end(d) == 13 + vlen + dlen);
    assert(language_end(d) == 13 + vlen + dlen + llen);
    assert(d.subrange(13, value_end(d)) =~= t.value);
    assert(d.subrange(value_end(d), data_type_end(d)) =~= opt_payload(t.data_type));
    assert(d.subrange(data_type_end(d), language_end(d)) =~= opt_payload(t.language));
    lemma_i8_byte_roundtrip(t.term_type);
    assert(decode_term(d) =~= t);
}

/// The encoding of a term whose fields fit and whose strings are valid UTF-8 can be decoded.
pub proof fn lemma_encoded_term_decodable(t: TermBytes)
    requires
        term_fits(t),
        term_utf8(t),
    ensures
        term_decodable(encode_term(t)),
{
    lemma_decode_encode(t);
}

/// The strings of a term, taken by their bytes, are valid UTF-8.
pub proof fn lemma_redb_term_utf8(t: RedbTerm)
    ensures
        term_utf8(t.bytes_view()),
{
    broadcast use vstd::utf8::encode_utf8_valid_utf8;

}

/// Encoding a term and decoding it again gives back the same term, provided its value is
/// shorter than 2^32 bytes and its data type and language are shorter than 2^31 bytes.
pub proof fn lemma_redb_term_roundtrip(t: RedbTerm)
    requires
        term_fits(t.bytes_view()),
    ensures
        term_decodable(encode_term(t.bytes_view())),
        decode_term(encode_term(t.bytes_view())) == t.bytes_view(),
{
    lemma_redb_term_utf8(t);
    lemma_encoded_term_decodable(t.bytes_view());
    lemma_decode_encode(t.bytes_view());
}

/// Comparing the encodings of two terms orders them as the terms themselves are ordered.
pub proof fn lemma_compare_encodings(a: TermBytes, b: TermBytes)
    requires
        term_fits(a),
        term_fits(b),
    ensures
        term_in_bounds(encode_term(a)),
        term_in_bounds(encode_term(b)),
        term_order(decode_term(encode_term(a)), decode_term(encode_term(b))) == term_order(a, b),
{
    lemma_decode_encode(a);
    lemma_decode_encode(b);
}

/// The term order is antisymmetric: swapping the terms negates the order.
pub proof fn lemma_term_order_antisymmetric(a: TermBytes, b: TermBytes)
    ensures
        term_order(a, b) == -term_order(b, a),
{
    lemma_lex_order_from_antisymmetric(a.value, b.value, 0);
    if let (Some(x), Some(y)) = (a.data_type, b.data_type) {
        lemma_lex_order_from_antisymmetric(x, y, 0);
    }
    if let (Some(x), Some(y)) = (a.language, b.language) {
        lemma_lex_order_from_antisymmetric(x, y, 0);
    }
}

/// Two byte sequences are lexicographically equal exactly when they are the same sequence.
pub proof fn lemma_lex_order_zero_iff_equal(a: Seq<u8>, b: Seq<u8>)
    ensures
        lex_order(a, b) == 0 <==> a == b,
{
    lemma_lex_order_from_zero(a, b, 0);
    assert(a.subrange(0, a.len() as int) =~= a);
    assert(b.subrange(0, b.len() as int) =~= b);
}

/// The term order ranks two terms as equal exactly when they are the same term.
pub proof fn lemma_term_order_zero_iff_equal(a: TermBytes, b: TermBytes)
    ensures
        term_order(a, b) == 0 <==> a == b,
{
    lemma_lex_order_zero_iff_equal(a.value, b.value);
    if let (Some(x), Some(y)) = (a.data_type, b.data_type) {
        lemma_lex_order_zero_iff_equal(x, y);
    }
    if let (Some(x), Some(y)) = (a.language, b.language) {
        lemma_lex_order_zero_iff_equal(x, y);
    }
}


/// Whether two byte slices hold the same bytes.
fn bytes_equal(a: &[u8], b: &[u8]) -> (r: bool)
    ensures
        r == (a@ == b@),
{
    if a.len() != b.len() {
        return false;
    }
    let n = a.len();
    let mut i: usize = 0;
    while i < n
        invariant
            n == a@.len(),
            n == b@.len(),
            i <= n,
            a@.subrange(0, i as int) == b@.subrange(0, i as int),
        decreases n - i,
    {
        if a[i] != b[i] {
            assert(a@[i as int] != b@[i as int]);
            return false;
        }
        assert(a@.subrange(0, i + 1) =~= a@.subrange(0, i as int).push(a@[i as int]));
        assert(b@.subrange(0, i + 1) =~= b@.subrange(0, i as int).push(b@[i as int]));
        i = i + 1;
    }
    assert(a@ =~= a@.subrange(0, n as int));
    assert(b@ =~= b@.subrange(0, n as int));
    true
}

/// Whether an optional string slice and an optional owned string hold the same bytes.
fn opt_str_equal(a: Option<&str>, b: &Option<String>) -> (r: bool)
    ensures
        r == (opt_str_bytes(a) == opt_string_bytes(*b)),
{
    match (a, b) {
        (None, None) => true,
        (Some(x), Some(y)) => bytes_equal(x.as_bytes(), y.as_str().as_bytes()),
        _ => false,
    }
}

/// Copies an optional string slice into an owned string.
fn opt_to_owned(o: Option<&str>) -> (r: Option<String>)
    ensures
        opt_string_bytes(r) == opt_str_bytes(o),
{
    match o {
        Some(s) => Some(s.to_owned()),
        None => None,
    }
}

/// Borrows an optional owned string as a string slice.
fn opt_as_str(o: &Option<String>) -> (r: Option<&str>)
    ensures
        opt_str_bytes(r) == opt_string_bytes(*o),
{
    match o {
        Some(s) => Some(s.as_str()),
        None => None,
    }
}

impl<'a> RedbTerm<'a> {
    /// Creates a [`LocalDictionaryTerm`] that owns copies of this term's strings.
    pub fn as_local_dictionary_term(&self) -> (r: LocalDictionaryTerm)
        ensures
            r.bytes_view() == self.bytes_view(),
    {
        LocalDictionaryTerm {
            term_type: self.term_type,
            value: self.value.to_owned(),
            data_type: opt_to_owned(self.data_type),
            language: opt_to_owned(self.language),
        }
    }

    /// Whether this term denotes the same term as an owned dictionary term (the lookup
    /// equivalence used by the caches).
    pub fn equivalent(&self, key: &LocalDictionaryTerm) -> (r: bool)
        ensures
            r == (self.bytes_view() == key.bytes_view()),
    {
        self.term_type == key.term_type && bytes_equal(
            self.value.as_bytes(),
            key.value.as_str().as_bytes(),
        ) && opt_str_equal(self.data_type, &key.data_type) && opt_str_equal(
            self.language,
            &key.language,
        )
    }

    /// Borrows the strings of an owned dictionary term.
    pub fn from_local_term(value: &'a LocalDictionaryTerm) -> (r: RedbTerm<'a>)
        ensures
            r.bytes_view() == value.bytes_view(),
    {
        RedbTerm {
            term_type: value.term_type,
            value: value.value.as_str(),
            data_type: opt_as_str(&value.data_type),
            language: opt_as_str(&value.language),
        }
    }
}

} // verus!

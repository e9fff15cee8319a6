//! Byte encodings of the LMDB dictionary: object ids, term tuples and term hashes.
//!
//! A term tuple is laid out as `[type: 1][value length: u32 LE][value]`, followed for the data
//! type and then the language by either `[0]` (absent) or `[1][length: u32 LE][bytes]`.

use crate::bytes::{
    append_bytes, append_le32, byte_as_i8, byte_to_i8, i8_as_byte, i8_to_byte, le32, le64,
    lemma_i8_byte_roundtrip, lemma_le32_roundtrip, lemma_le64_roundtrip, lemma_u32_field,
    read_u32_le, u32_at, u64_at,
};
use crate::term::{len32, opt_string_bytes, str_from_utf8, LocalDictionaryTerm, TermBytes};
use vstd::prelude::*;
use vstd::string::StringSliceAdditionalSpecFns;

verus! {

/// The encoding of an optional string field: `[0]` when absent, `[1][length][bytes]` when
/// present.
pub open spec fn tuple_field(o: Option<Seq<u8>>) -> Seq<u8> {
    match o {
        Some(b) => seq![1u8] + le32(len32(b.len())) + b,
        None => seq![0u8],
    }
}

/// The encoding of a term tuple.
pub open spec fn encode_tuple(t: TermBytes) -> Seq<u8> {
    seq![i8_to_byte(t.term_type)] + le32(len32(t.value.len())) + t.value + tuple_field(
        t.data_type,
    ) + tuple_field(t.language)
}

/// Where the value of an encoded tuple ends.
pub open spec fn tuple_value_end(d: Seq<u8>) -> int {
    5 + u32_at(d, 1) as int
}

/// Where the optional field whose marker byte stands at `at` ends.
pub open spec fn tuple_field_end(d: Seq<u8>, at: int) -> int {
    if d[at] == 1 {
        at + 5 + u32_at(d, at + 1)
    } else {
        at + 1
    }
}

/// The optional field whose marker byte stands at `at`.
pub open spec fn tuple_opt_field(d: Seq<u8>, at: int) -> Option<Seq<u8>> {
    if d[at] == 1 {
        Some(d.subrange(at + 5, tuple_field_end(d, at)))
    } else {
        None
    }
}

/// The optional field whose marker byte stands at `at` lies within `d`.
pub open spec fn tuple_field_in_bounds(d: Seq<u8>, at: int) -> bool {
    &&& 0 <= at < d.len()
    &&& d[at] == 1 ==> at + 5 <= d.len() && tuple_field_end(d, at) <= d.len()
}

/// Every field of an encoded tuple lies within `d`.
pub open spec fn tuple_in_bounds(d: Seq<u8>) -> bool {
    &&& d.len() >= 5
    &&& tuple_value_end(d) <= d.len()
    &&& tuple_field_in_bounds(d, tuple_value_end(d))
    &&& tuple_field_in_bounds(d, tuple_field_end(d, tuple_value_end(d)))
}

/// The term that an encoded tuple holds (meaningful when `tuple_in_bounds(d)`).
pub open spec fn decode_tuple(d: Seq<u8>) -> TermBytes {
    TermBytes {
        term_type: byte_to_i8(d[0]),
        value: d.subrange(5, tuple_value_end(d)),
        data_type: tuple_opt_field(d, tuple_value_end(d)),
        language: tuple_opt_field(d, tuple_field_end(d, tuple_value_end(d))),
    }
}

/// The bytes `d` encode a tuple whose strings are valid UTF-8.
pub open spec fn tuple_decodable(d: Seq<u8>) -> bool {
    tuple_in_bounds(d) && crate::term::term_utf8(decode_tuple(d))
}

/// Every string field of a term is shorter than 2^32 bytes.
pub open spec fn tuple_fits(t: TermBytes) -> bool {
    &&& t.value.len() < 4294967296
    &&& (t.data_type matches Some(b) ==> b.len() < 4294967296)
    &&& (t.language matches Some(b) ==> b.len() < 4294967296)
}

/// Encodes and decodes the term tuples that the dictionary stores by object id.
pub struct TermTupleEncoding;

/// Appends the encoding of an optional string field.
fn append_tuple_field(buf: &mut Vec<u8>, o: &Option<String>)
    ensures
        final(buf)@ == old(buf)@ + tuple_field(opt_string_bytes(*o)),
{
    match o {
        Some(s) => {
            let b = s.as_str().as_bytes();
            buf.push(1);
            let len = (b.len() as u64 % 4294967296) as u32;
            append_le32(buf, len);
            append_bytes(buf, b);
            assert(buf@ =~= old(buf)@ + tuple_field(opt_string_bytes(*o)));
        },
        None => {
            buf.push(0);
            assert(buf@ =~= old(buf)@ + tuple_field(opt_string_bytes(*o)));
        },
    }
}

/// Copies bytes that are known to be valid UTF-8 into an owned string.
fn utf8_to_string(bytes: &[u8]) -> (r: String)
    requires
        vstd::utf8::valid_utf8(bytes@),
    ensures
        vstd::utf8::encode_utf8(r@) == bytes@,
{
    match str_from_utf8(bytes).ok() {
        Some(s) => s.to_owned(),
        None => {
            proof {
                assert(false);
            }
            String::new()
        },
    }
}

/// Reads the optional field whose marker byte stands at `at`; returns it and where it ends.
fn read_tuple_field(d: &[u8], at: usize) -> (r: (Option<String>, usize))
    requires
        tuple_field_in_bounds(d@, at as int),
        tuple_opt_field(d@, at as int) matches Some(b) ==> vstd::utf8::valid_utf8(b),
    ensures
        opt_string_bytes(r.0) == tuple_opt_field(d@, at as int),
        r.1 == tuple_field_end(d@, at as int),
{
    if d[at] == 1 {
        let n = d.len();
        let len = read_u32_le(d, at + 1) as usize;
        assert(tuple_field_end(d@, at as int) <= n);
        let start = at + 5;
        let end = start + len;
        let s = utf8_to_string(&d[start..end]);
        (Some(s), end)
    } else {
        (None, at + 1)
    }
}

impl TermTupleEncoding {
    /// Encodes a term tuple.
    pub fn bytes_encode(item: &LocalDictionaryTerm) -> (r: Vec<u8>)
        ensures
            r@ == encode_tuple(item.bytes_view()),
    {
        let mut bytes: Vec<u8> = Vec::new();
        bytes.push(i8_as_byte(item.term_type));
        let value = item.value.as_str().as_bytes();
        let len = (value.len() as u64 % 4294967296) as u32;
        append_le32(&mut bytes, len);
        append_bytes(&mut bytes, value);
        append_tuple_field(&mut bytes, &item.data_type);
        append_tuple_field(&mut bytes, &item.language);
        assert(bytes@ =~= encode_tuple(item.bytes_view()));
        bytes
    }

    /// Decodes a term tuple.
    pub fn bytes_decode(bytes: &[u8]) -> (r: LocalDictionaryTerm)
        requires
            tuple_decodable(bytes@),
        ensures
            r.bytes_view() == decode_tuple(bytes@),
    {
        let n = bytes.len();
        let term_type = byte_as_i8(bytes[0]);
        let len = read_u32_le(bytes, 1) as usize;
        assert(tuple_value_end(bytes@) <= n);
        let value_end = 5 + len;
        let value = utf8_to_string(&bytes[5..value_end]);
        let (data_type, data_type_end) = read_tuple_field(bytes, value_end);
        let (language, _) = read_tuple_field(bytes, data_type_end);
        LocalDictionaryTerm { term_type, value, data_type, language }
    }
}

/// The encoding of an optional field is read back as that field.
proof fn lemma_tuple_field_roundtrip(d: Seq<u8>, at: int, o: Option<Seq<u8>>)
    requires
        0 <= at,
        at + tuple_field(o).len() <= d.len(),
        d.subrange(at, at + tuple_field(o).len()) == tuple_field(o),
        o matches Some(b) ==> b.len() < 4294967296,
    ensures
        tuple_field_in_bounds(d, at),
        tuple_opt_field(d, at) == o,
        tuple_field_end(d, at) == at + tuple_field(o).len(),
{
    let f = tuple_field(o);
    assert(d[at] == f[0]);
    match o {
        Some(b) => {
            lemma_le32_roundtrip(len32(b.len()));
            assert(f =~= seq![1u8] + le32(len32(b.len())) + b);
            assert(d.subrange(at + 1, at + 5) =~= f.subrange(1, 5));
            assert(f.subrange(1, 5) =~= le32(len32(b.len())));
            lemma_u32_field(d, at + 1, len32(b.len()));
            assert(d.subrange(at + 5, at + 5 + b.len()) =~= f.subrange(5, f.len() as int));
            assert(f.subrange(5, f.len() as int) =~= b);
        },
        None => {},
    }
}

/// The end of a field of length `f.len()` that starts at `at`.
spec fn de_end(at: int, f: Seq<u8>) -> int {
    at + f.len()
}

/// Decoding the encoding of a term tuple whose strings are shorter than 2^32 bytes gives back
/// the term.
pub proof fn lemma_tuple_roundtrip(t: TermBytes)
    requires
        tuple_fits(t),
    ensures
        tuple_in_bounds(encode_tuple(t)),
        decode_tuple(encode_tuple(t)) == t,
{
    let d = encode_tuple(t);
    let vlen = t.value.len();
    lemma_le32_roundtrip(len32(vlen));
    let fd = tuple_field(t.data_type);
    let fl = tuple_field(t.language);
    assert(d =~= seq![i8_to_byte(t.term_type)] + le32(len32(vlen)) + t.value + fd + fl);
    assert(d.subrange(1, 5) =~= le32(len32(vlen)));
    lemma_u32_field(d, 1, len32(vlen));
    let ve: int = 5 + vlen as int;
    assert(tuple_value_end(d) == ve);
    assert(d.subrange(5, ve) =~= t.value);
    assert(d.subrange(ve, de_end(ve, fd)) =~= fd);
    lemma_tuple_field_roundtrip(d, ve, t.data_type);
    let de: int = ve + fd.len();
    assert(d.subrange(de, de_end(de, fl)) =~= fl);
    lemma_tuple_field_roundtrip(d, de, t.language);
    lemma_i8_byte_roundtrip(t.term_type);
    assert(decode_tuple(d) =~= t);
}

/// Encodes and decodes object ids as eight little-endian bytes.
pub struct I64Encoding;

/// The eight little-endian two's complement bytes of an object id.
pub open spec fn encode_i64(v: i64) -> Seq<u8> {
    if v >= 0 {
        le64(v as nat)
    } else {
        le64((v + 18446744073709551616) as nat)
    }
}

/// The object id that eight little-endian two's complement bytes denote.
pub open spec fn decode_i64(d: Seq<u8>) -> int {
    if u64_at(d, 0) >= 9223372036854775808 {
        u64_at(d, 0) - 18446744073709551616
    } else {
        u64_at(d, 0) as int
    }
}

impl I64Encoding {
    /// Encodes an object id.
    pub fn bytes_encode(item: &i64) -> (r: Vec<u8>)
        ensures
            r@ == encode_i64(*item),
    {
        let u: u64 = if *item >= 0 {
            *item as u64
        } else {
            (*item as i128 + 18446744073709551616) as u64
        };
        let lo = (u % 4294967296) as u32;
        let hi = (u / 4294967296) as u32;
        let mut bytes: Vec<u8> = Vec::new();
        append_le32(&mut bytes, lo);
        append_le32(&mut bytes, hi);
        assert((u as nat / 4294967296) % 4294967296 == hi);
        assert(bytes@ =~= encode_i64(*item));
        bytes
    }

    /// Decodes an object id from exactly eight bytes.
    pub fn bytes_decode(bytes: &[u8]) -> (r: i64)
        requires
            bytes@.len() == 8,
        ensures
            r == decode_i64(bytes@),
    {
        let lo = read_u32_le(bytes, 0) as u64;
        let hi = read_u32_le(bytes, 4) as u64;
        let u: u64 = lo + 4294967296 * hi;
        if u >= 9223372036854775808 {
            (u as i128 - 18446744073709551616) as i64
        } else {
            u as i64
        }
    }
}

/// Decoding the encoding of an object id gives back the object id.
pub proof fn lemma_i64_roundtrip(v: i64)
    ensures
        encode_i64(v).len() == 8,
        decode_i64(encode_i64(v)) == v,
{
    if v >= 0 {
        lemma_le64_roundtrip(v as nat);
    } else {
        lemma_le64_roundtrip((v + 18446744073709551616) as nat);
    }
}

/// Encodes and decodes the 16-byte term hashes that key the term-to-id table.
pub struct HashEncoding;

impl HashEncoding {
    /// Encodes a hash as its 16 bytes.
    pub fn bytes_encode(item: &[u8; 16]) -> (r: Vec<u8>)
        ensures
            r@ == item@,
    {
        let mut bytes: Vec<u8> = Vec::new();
        append_bytes(&mut bytes, item.as_slice());
        assert(bytes@ =~= item@);
        bytes
    }

    /// Decodes a hash from exactly 16 bytes.
    pub fn bytes_decode(bytes: &[u8]) -> (r: [u8; 16])
        requires
            bytes@.len() == 16,
        ensures
            r@ == bytes@,
    {
        let r = [
            bytes[0],
            bytes[1],
            bytes[2],
            bytes[3],
            bytes[4],
            bytes[5],
            bytes[6],
            bytes[7],
            bytes[8],
            bytes[9],
            bytes[10],
            bytes[11],
            bytes[12],
            bytes[13],
            bytes[14],
            bytes[15],
        ];
        assert(r@ =~= bytes@);
        r
    }
}

} // verus!

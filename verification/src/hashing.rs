//! MD5 digests of terms (the keys of the term-to-id table) and of table locations (the names
//! of local dictionary directories).

use crate::bytes::i8_to_byte;
use crate::bytes::i8_as_byte;
use crate::bytes::append_bytes;
use crate::term::{opt_string_bytes, LocalDictionaryTerm, TermBytes};
use crate::decimal::string_push;
use md5::{Digest, Md5};
use vstd::prelude::*;
use vstd::string::StringSliceAdditionalSpecFns;

verus! {

/// The MD5 digest of a byte sequence, as the md-5 crate computes it.
pub uninterp spec fn md5_digest(data: Seq<u8>) -> Seq<u8>;

/// Wraps `Md5::digest` of the md-5 crate: the 16-byte MD5 digest of `data`, which is what
/// `md5_digest` names. Nothing more is stated of the digest's value.
#[verifier::external_body]
fn md5_of(data: &[u8]) -> (r: [u8; 16])
    ensures
        r@ == md5_digest(data@),
{
    Md5::digest(data).into()
}

/// The bytes that identify an optional string in a term hash: `[0]` when absent, `[1]`
/// followed by the string's bytes when present.
pub open spec fn hash_field(o: Option<Seq<u8>>) -> Seq<u8> {
    match o {
        Some(b) => seq![1u8] + b,
        None => seq![0u8],
    }
}

/// The message whose digest identifies a term: its type byte, its value, and its data type and
/// language fields.
pub open spec fn term_hash_input(t: TermBytes) -> Seq<u8> {
    seq![i8_to_byte(t.term_type)] + t.value + hash_field(t.data_type) + hash_field(t.language)
}

/// Appends the hash field of an optional string.
fn append_hash_field(buf: &mut Vec<u8>, o: &Option<String>)
    ensures
        final(buf)@ == old(buf)@ + hash_field(opt_string_bytes(*o)),
{
    match o {
        Some(s) => {
            buf.push(1);
            append_bytes(buf, s.as_str().as_bytes());
            assert(buf@ =~= old(buf)@ + hash_field(opt_string_bytes(*o)));
        },
        None => {
            buf.push(0);
            assert(buf@ =~= old(buf)@ + hash_field(opt_string_bytes(*o)));
        },
    }
}

/// Computes the 16-byte hash that keys a term in the term-to-id table: the MD5 digest of the
/// term's type byte, value, and data type and language fields.
pub fn compute_hash(term: &LocalDictionaryTerm) -> (r: [u8; 16])
    ensures
        r@ == md5_digest(term_hash_input(term.bytes_view())),
{
    let mut message: Vec<u8> = Vec::new();
    message.push(i8_as_byte(term.term_type));
    append_bytes(&mut message, term.value.as_str().as_bytes());
    append_hash_field(&mut message, &term.data_type);
    append_hash_field(&mut message, &term.language);
    assert(message@ =~= term_hash_input(term.bytes_view()));
    md5_of(message.as_slice())
}

/// The lower-case hexadecimal digit of a value below 16.
pub open spec fn hex_digit(n: nat) -> char {
    if n < 10 {
        ((48 + n) as u8) as char
    } else {
        ((87 + n) as u8) as char
    }
}

/// The lower-case hexadecimal notation of a byte sequence, two digits per byte.
pub open spec fn hex_lower(bytes: Seq<u8>) -> Seq<char>
    decreases bytes.len(),
{
    if bytes.len() == 0 {
        seq![]
    } else {
        hex_lower(bytes.drop_last()).push(hex_digit(bytes.last() as nat / 16)).push(
            hex_digit(bytes.last() as nat % 16),
        )
    }
}

/// The lower-case hexadecimal digit of a value below 16.
fn hex_digit_char(n: u8) -> (c: char)
    requires
        n < 16,
    ensures
        c == hex_digit(n as nat),
{
    if n < 10 {
        ((48 + n) as u8) as char
    } else {
        ((87 + n) as u8) as char
    }
}

/// Writes bytes in lower-case hexadecimal notation.
pub fn to_hex_lower(bytes: &[u8]) -> (r: String)
    ensures
        r@ == hex_lower(bytes@),
{
    let mut s = String::new();
    let n = bytes.len();
    let mut i: usize = 0;
    while i < n
        invariant
            n == bytes@.len(),
            i <= n,
            s@ == hex_lower(bytes@.subrange(0, i as int)),
        decreases n - i,
    {
        let b = bytes[i];
        string_push(&mut s, hex_digit_char(b / 16));
        string_push(&mut s, hex_digit_char(b % 16));
        let ghost prefix = bytes@.subrange(0, i + 1);
        assert(prefix.drop_last() =~= bytes@.subrange(0, i as int));
        i = i + 1;
    }
    assert(bytes@.subrange(0, n as int) =~= bytes@);
    s
}

/// The name of the local dictionary directory of a table location: the lower-case hexadecimal
/// MD5 digest of the location.
pub fn dictionary_dir_name(location: &str) -> (r: String)
    ensures
        r@ == hex_lower(md5_digest(location.spec_bytes())),
{
    let digest = md5_of(location.as_bytes());
    to_hex_lower(digest.as_slice())
}

/// Where the local dictionary of a table is kept: `work_dir/dictionaries/dir_name`.
pub struct LmdbPath {
    pub work_dir: String,
    pub dir_name: String,
}

/// Chooses the on-disk location of the local dictionary of a table: none for in-memory
/// locations or without a working directory, otherwise a directory under the working
/// directory named by the digest of the location.
pub fn get_lmdb_path(is_memory_location: bool, location: &str, work_dir: Option<&str>) -> (r:
    Option<LmdbPath>)
    ensures
        r is Some <==> !is_memory_location && work_dir is Some,
        r matches Some(p) ==> p.work_dir@ == work_dir.unwrap()@ && p.dir_name@ == hex_lower(
            md5_digest(location.spec_bytes()),
        ),
{
    if is_memory_location {
        return None;
    }
    match work_dir {
        Some(dir) => Some(LmdbPath { work_dir: dir.to_owned(), dir_name: dictionary_dir_name(location) }),
        None => None,
    }
}

} // verus!

//! Decimal notation of object ids and versions, as the dictionaries store them in their
//! metadata, and small string-building helpers.

use vstd::prelude::*;
use vstd::string::StringSliceAdditionalSpecFns;

verus! {

/// Wraps `String::push`: appends one character to the string.
#[verifier::external_body]
pub(crate) fn string_push(s: &mut String, c: char)
    ensures
        final(s)@ == old(s)@.push(c),
{
    s.push(c)
}

/// The ASCII decimal digit of a value below 10.
pub open spec fn digit_char(d: nat) -> char {
    ((48 + d) as u8) as char
}

/// The decimal digits of a natural number, most significant first, without leading zeros
/// (`"0"` for zero).
pub open spec fn digits_of(n: nat) -> Seq<char>
    decreases n,
{
    if n < 10 {
        seq![digit_char(n)]
    } else {
        digits_of(n / 10).push(digit_char(n % 10))
    }
}

/// The decimal notation of an integer: a minus sign for negative numbers, then the digits of
/// its magnitude.
pub open spec fn decimal_chars(n: int) -> Seq<char> {
    if n < 0 {
        seq!['-'] + digits_of((-n) as nat)
    } else {
        digits_of(n as nat)
    }
}

/// Whether every byte is an ASCII decimal digit.
pub open spec fn all_digits(d: Seq<u8>) -> bool {
    forall|i: int| 0 <= i < d.len() ==> 48 <= #[trigger] d[i] <= 57
}

/// The value of a sequence of ASCII decimal digits, most significant first.
pub open spec fn digits_value(d: Seq<u8>) -> nat
    decreases d.len(),
{
    if d.len() == 0 {
        0
    } else {
        digits_value(d.drop_last()) * 10 + (d.last() - 48) as nat
    }
}

/// The `i64` that the bytes of a string denote in decimal, as `str::parse::<i64>` reads them:
/// an optional `+` or `-`, then at least one digit and nothing else, within the range of
/// `i64`.
pub open spec fn parse_i64_bytes(b: Seq<u8>) -> Option<i64> {
    let neg = b.len() > 0 && b[0] == 45;
    let digits = if b.len() > 0 && (b[0] == 45 || b[0] == 43) {
        b.drop_first()
    } else {
        b
    };
    if digits.len() == 0 || !all_digits(digits) {
        None
    } else {
        let v: int = if neg {
            -(digits_value(digits) as int)
        } else {
            digits_value(digits) as int
        };
        if i64::MIN <= v <= i64::MAX {
            Some(v as i64)
        } else {
            None
        }
    }
}

/// The `u64` that the bytes of a string denote in decimal, as `str::parse::<u64>` reads them:
/// an optional `+`, then at least one digit and nothing else, within the range of `u64`.
pub open spec fn parse_u64_bytes(b: Seq<u8>) -> Option<u64> {
    let digits = if b.len() > 0 && b[0] == 43 {
        b.drop_first()
    } else {
        b
    };
    if digits.len() == 0 || !all_digits(digits) || digits_value(digits) > u64::MAX {
        None
    } else {
        Some(digits_value(digits) as u64)
    }
}

/// Appends the digits of `m`.
fn push_digits(s: &mut String, m: u64)
    ensures
        final(s)@ == old(s)@ + digits_of(m as nat),
    decreases m,
{
    if m >= 10 {
        push_digits(s, m / 10);
        let d = (m % 10) as u8;
        string_push(s, (48 + d) as char);
        assert(final(s)@ =~= old(s)@ + digits_of(m as nat));
    } else {
        let d = m as u8;
        string_push(s, (48 + d) as char);
        assert(final(s)@ =~= old(s)@ + digits_of(m as nat));
    }
}

/// Writes an `i64` in decimal notation.
pub fn format_i64(n: i64) -> (r: String)
    ensures
        r@ == decimal_chars(n as int),
{
    let mut s = String::new();
    if n < 0 {
        string_push(&mut s, '-');
        let m = (-(n as i128)) as u64;
        push_digits(&mut s, m);
    } else {
        push_digits(&mut s, n as u64);
    }
    assert(s@ =~= decimal_chars(n as int));
    s
}

/// Writes a `u64` in decimal notation.
pub fn format_u64(n: u64) -> (r: String)
    ensures
        r@ == digits_of(n as nat),
{
    let mut s = String::new();
    push_digits(&mut s, n);
    assert(s@ =~= digits_of(n as nat));
    s
}

/// Extending digits by one more digit cannot lower their value.
proof fn lemma_digits_value_grows(d: Seq<u8>, c: u8)
    requires
        48 <= c <= 57,
    ensures
        digits_value(d.push(c)) >= digits_value(d),
        digits_value(d.push(c)) == digits_value(d) * 10 + (c - 48) as nat,
{
    assert(d.push(c).drop_last() =~= d);
}

/// All digits of a longer sequence are worth at least those of any of its prefixes.
proof fn lemma_digits_value_prefix(d: Seq<u8>, k: int)
    requires
        0 <= k <= d.len(),
        all_digits(d),
    ensures
        digits_value(d) >= digits_value(d.subrange(0, k)),
    decreases d.len() - k,
{
    if k < d.len() {
        lemma_digits_value_prefix(d, k + 1);
        let p = d.subrange(0, k);
        assert(d.subrange(0, k + 1) =~= p.push(d[k]));
        lemma_digits_value_grows(p, d[k]);
    } else {
        assert(d.subrange(0, k) =~= d);
    }
}

/// Reads the digits of `b` from `start` on; `None` when a non-digit occurs or the value
/// exceeds `limit`.
fn read_digits(b: &[u8], start: usize, limit: u64) -> (r: Option<u64>)
    requires
        start <= b@.len(),
    ensures
        ({
            let d = b@.subrange(start as int, b@.len() as int);
            r == if all_digits(d) && digits_value(d) <= limit {
                Some(digits_value(d) as u64)
            } else {
                None
            }
        }),
{
    let n = b.len();
    let ghost d = b@.subrange(start as int, n as int);
    let mut acc: u64 = 0;
    let mut i: usize = start;
    while i < n
        invariant
            n == b@.len(),
            start <= i <= n,
            d == b@.subrange(start as int, n as int),
            all_digits(b@.subrange(start as int, i as int)),
            acc == digits_value(b@.subrange(start as int, i as int)),
            acc <= limit,
        decreases n - i,
    {
        let c = b[i];
        let ghost prefix = b@.subrange(start as int, i as int);
        let ghost next = b@.subrange(start as int, i + 1);
        proof {
            assert(next =~= prefix.push(c));
        }
        if c < 48 || c > 57 {
            proof {
                assert(d[i - start] == c);
            }
            return None;
        }
        proof {
            lemma_digits_value_grows(prefix, c);
        }
        let digit = (c - 48) as u64;
        if digit > limit || acc > (limit - digit) / 10 {
            proof {
                assert(digits_value(next) > limit);
                assert(all_digits(next));
                if all_digits(d) {
                    assert(d.subrange(0, (i + 1 - start) as int) =~= next);
                    lemma_digits_value_prefix(d, (i + 1 - start) as int);
                }
            }
            return None;
        }
        acc = acc * 10 + digit;
        i = i + 1;
    }
    Some(acc)
}

/// Parses an `i64` from its decimal notation as `str::parse::<i64>` does; `None` when the
/// string is not a decimal `i64`.
pub fn parse_i64(s: &str) -> (r: Option<i64>)
    ensures
        r == parse_i64_bytes(s.spec_bytes()),
{
    let b = s.as_bytes();
    let n = b.len();
    if n > 0 && b[0] == 45 {
        assert(b@.subrange(1, n as int) =~= b@.drop_first());
        if n == 1 {
            return None;
        }
        match read_digits(b, 1, 9223372036854775808) {
            Some(m) => {
                Some((-(m as i128)) as i64)
            },
            None => None,
        }
    } else {
        let start: usize = if n > 0 && b[0] == 43 {
            1
        } else {
            0
        };
        assert(start == 1 ==> b@.subrange(1, n as int) =~= b@.drop_first());
        assert(start == 0 ==> b@.subrange(0, n as int) =~= b@);
        if start == n {
            return None;
        }
        match read_digits(b, start, 9223372036854775807) {
            Some(m) => Some(m as i64),
            None => None,
        }
    }
}

/// Parses a `u64` from its decimal notation as `str::parse::<u64>` does; `None` when the
/// string is not a decimal `u64`.
pub fn parse_u64(s: &str) -> (r: Option<u64>)
    ensures
        r == parse_u64_bytes(s.spec_bytes()),
{
    let b = s.as_bytes();
    let n = b.len();
    let start: usize = if n > 0 && b[0] == 43 {
        1
    } else {
        0
    };
    assert(start == 1 ==> b@.subrange(1, n as int) =~= b@.drop_first());
    assert(start == 0 ==> b@.subrange(0, n as int) =~= b@);
    if start == n {
        return None;
    }
    read_digits(b, start, 18446744073709551615)
}


/// The ASCII bytes of the decimal digits of a natural number.
pub open spec fn digit_bytes(m: nat) -> Seq<u8>
    decreases m,
{
    if m < 10 {
        seq![(48 + m) as u8]
    } else {
        digit_bytes(m / 10).push((48 + m % 10) as u8)
    }
}

/// The digits of a number are ASCII characters whose bytes are decimal digits worth the number.
proof fn lemma_digit_bytes(m: nat)
    ensures
        digit_bytes(m).len() == digits_of(m).len(),
        digit_bytes(m).len() > 0,
        forall|i: int| 0 <= i < digits_of(m).len() ==> #[trigger] digits_of(m)[i] as u8 == digit_bytes(m)[i],
        vstd::utf8::is_ascii_chars(digits_of(m)),
        all_digits(digit_bytes(m)),
        digits_value(digit_bytes(m)) == m,
    decreases m,
{
    if m >= 10 {
        lemma_digit_bytes(m / 10);
        let c = (48 + m % 10) as u8;
        assert(digit_bytes(m).drop_last() =~= digit_bytes(m / 10));
        assert(digit_bytes(m).last() == c);
        assert(c - 48 == m % 10);
        assert((m / 10) * 10 + m % 10 == m);
        assert(digits_value(digit_bytes(m)) == digits_value(digit_bytes(m / 10)) * 10 + (c - 48) as nat);
        let ds = digits_of(m);
        assert forall|i: int| 0 <= i < ds.len() implies '\0' <= #[trigger] ds[i] <= '\u{7f}' by {
            if i < ds.len() - 1 {
                assert(ds[i] == digits_of(m / 10)[i]);
            }
        }
    } else {
        assert(digit_bytes(m).drop_last() =~= Seq::<u8>::empty());
        assert(digits_value(Seq::<u8>::empty()) == 0);
        assert(digit_bytes(m).last() == (48 + m) as u8);
        assert(digits_value(digit_bytes(m)) == 0 * 10 + (digit_bytes(m).last() - 48) as nat);
    }
}

/// The bytes of the decimal notation of an integer.
proof fn lemma_decimal_bytes(n: int)
    ensures
        vstd::utf8::encode_utf8(decimal_chars(n)) == if n < 0 {
            seq![45u8] + digit_bytes((-n) as nat)
        } else {
            digit_bytes(n as nat)
        },
{
    let m: nat = if n < 0 {
        (-n) as nat
    } else {
        n as nat
    };
    lemma_digit_bytes(m);
    let cs = decimal_chars(n);
    let expected = if n < 0 {
        seq![45u8] + digit_bytes(m)
    } else {
        digit_bytes(m)
    };
    assert forall|i: int| 0 <= i < cs.len() implies '\0' <= #[trigger] cs[i] <= '\u{7f}' by {
        if n < 0 && i > 0 {
            assert(cs[i] == digits_of(m)[i - 1]);
        }
    }
    vstd::utf8::is_ascii_chars_encode_utf8(cs);
    let e = vstd::utf8::encode_utf8(cs);
    assert forall|i: int| 0 <= i < cs.len() implies e[i] == expected[i] by {
        assert(cs[i] as u8 == e[i]);
        if n < 0 && i > 0 {
            assert(cs[i] == digits_of(m)[i - 1]);
        }
    }
    assert(e =~= expected);
}

/// Parsing the decimal notation of an `i64` gives back the number.
pub proof fn lemma_i64_decimal_roundtrip(n: i64)
    ensures
        parse_i64_bytes(vstd::utf8::encode_utf8(decimal_chars(n as int))) == Some(n),
{
    lemma_decimal_bytes(n as int);
    let b = vstd::utf8::encode_utf8(decimal_chars(n as int));
    if n < 0 {
        let m = (-(n as int)) as nat;
        lemma_digit_bytes(m);
        assert(b.drop_first() =~= digit_bytes(m));
        assert(b[0] == 45);
    } else {
        lemma_digit_bytes(n as nat);
        assert(b[0] == digit_bytes(n as nat)[0]);
    }
}

/// Parsing the decimal notation of a `u64` gives back the number.
pub proof fn lemma_u64_decimal_roundtrip(n: u64)
    ensures
        parse_u64_bytes(vstd::utf8::encode_utf8(digits_of(n as nat))) == Some(n),
{
    lemma_decimal_bytes(n as int);
    lemma_digit_bytes(n as nat);
    let b = vstd::utf8::encode_utf8(digits_of(n as nat));
    assert(b[0] == digit_bytes(n as nat)[0]);
}

} // verus!

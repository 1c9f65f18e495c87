//! Decimal and fixed-width binary representations of the integer fields.

use vstd::prelude::*;
use std::num::ParseIntError;
use vstd::utf8::*;

verus! {

#[verifier::external_type_specification]
#[verifier::external_body]
pub struct ExParseIntError(ParseIntError);

/// A decimal digit character.
pub open spec fn is_digit(c: char) -> bool {
    '0' <= c && c <= '9'
}

pub open spec fn all_digits(s: Seq<char>) -> bool {
    forall|i: int| 0 <= i < s.len() ==> is_digit(#[trigger] s[i])
}

pub open spec fn digit_value(c: char) -> nat {
    (c as int - '0' as int) as nat
}

/// The number written by a sequence of decimal digits, most significant first.
pub open spec fn digits_value(s: Seq<char>) -> nat
    decreases s.len(),
{
    if s.len() == 0 {
        0
    } else {
        digits_value(s.drop_last()) * 10 + digit_value(s.last())
    }
}

/// The text after an optional leading `+`.
pub open spec fn without_plus(s: Seq<char>) -> Seq<char> {
    if s.len() > 0 && s[0] == '+' {
        s.drop_first()
    } else {
        s
    }
}

/// What parsing a `u64` from text gives: an optional `+`, then one or more
/// decimal digits and nothing else, whose value fits in a `u64`.
pub open spec fn spec_parse_u64(s: Seq<char>) -> Option<u64> {
    let d = without_plus(s);
    if d.len() > 0 && all_digits(d) && digits_value(d) <= u64::MAX {
        Some(digits_value(d) as u64)
    } else {
        None
    }
}

/// What parsing an `i64` from text gives: an optional `+` or `-`, then one or
/// more decimal digits and nothing else, whose signed value fits in an `i64`.
pub open spec fn spec_parse_i64(s: Seq<char>) -> Option<i64> {
    if s.len() > 0 && s[0] == '-' {
        let d = s.drop_first();
        if d.len() > 0 && all_digits(d) && digits_value(d) <= i64::MAX + 1 {
            Some((0 - digits_value(d)) as i64)
        } else {
            None
        }
    } else {
        let d = without_plus(s);
        if d.len() > 0 && all_digits(d) && digits_value(d) <= i64::MAX {
            Some(digits_value(d) as i64)
        } else {
            None
        }
    }
}

/// The message of the error that parsing a `u64` from a text gives.
pub uninterp spec fn u64_parse_error(s: Seq<char>) -> Seq<char>;

/// The message of the error that parsing an `i64` from a text gives.
pub uninterp spec fn i64_parse_error(s: Seq<char>) -> Seq<char>;

/// The message of an integer parse error.
pub uninterp spec fn int_error_message(e: ParseIntError) -> Seq<char>;

/// Calls `<u64 as FromStr>::from_str`. Its documentation: the text is an
/// optional `+` followed by decimal digits only; anything else, an empty
/// text, or a value above `u64::MAX` is an error. The contract claims exactly
/// that; of the error it claims only that its message is the one named for
/// that text (the error depends on the text alone).
#[verifier::external_body]
pub(crate) fn parse_u64(s: &str) -> (res: Result<u64, ParseIntError>)
    ensures
        match res {
            Ok(v) => spec_parse_u64(s@) == Some(v),
            Err(e) => spec_parse_u64(s@) is None && int_error_message(e) == u64_parse_error(s@),
        },
{
    s.parse::<u64>()
}

/// Calls `<i64 as FromStr>::from_str`. Its documentation: the text is an
/// optional `+` or `-` followed by decimal digits only; anything else, an
/// empty text, or a value outside the range of `i64` is an error. The
/// contract claims exactly that; of the error it claims only that its message
/// is the one named for that text (the error depends on the text alone).
#[verifier::external_body]
pub(crate) fn parse_i64(s: &str) -> (res: Result<i64, ParseIntError>)
    ensures
        match res {
            Ok(v) => spec_parse_i64(s@) == Some(v),
            Err(e) => spec_parse_i64(s@) is None && int_error_message(e) == i64_parse_error(s@),
        },
{
    s.parse::<i64>()
}

/// Calls `<ParseIntError as ToString>::to_string`: the error's own message,
/// which depends on the error alone and is given a name; what the text is
/// is not claimed.
#[verifier::external_body]
pub(crate) fn int_error_text(e: &ParseIntError) -> (res: String)
    ensures
        res@ == int_error_message(*e),
{
    e.to_string()
}

/// The character of a decimal digit.
pub open spec fn digit_char(d: nat) -> char {
    (48 + d) as char
}

/// The decimal text of a natural number, without leading zeros.
pub open spec fn decimal(n: nat) -> Seq<char>
    decreases n,
{
    if n < 10 {
        seq![digit_char(n)]
    } else {
        decimal(n / 10).push(digit_char(n % 10))
    }
}

/// The decimal text of an integer: a `-` before the digits of a negative one.
pub open spec fn signed_decimal(v: int) -> Seq<char> {
    if v < 0 {
        seq!['-'] + decimal((0 - v) as nat)
    } else {
        decimal(v as nat)
    }
}

/// The bytes of an ASCII text.
pub open spec fn ascii_bytes(s: Seq<char>) -> Seq<u8> {
    s.map_values(|c: char| c as u8)
}

proof fn lemma_digit_char(d: nat)
    requires
        d < 10,
    ensures
        digit_char(d) as int == 48 + d,
        digit_value(digit_char(d)) == d,
        is_digit(digit_char(d)),
{
}

pub proof fn lemma_decimal_facts(n: nat)
    ensures
        decimal(n).len() > 0,
        all_digits(decimal(n)),
        is_ascii_chars(decimal(n)),
        digits_value(decimal(n)) == n,
        decimal(n)[0] != '+' && decimal(n)[0] != '-',
    decreases n,
{
    lemma_digit_char(n % 10);
    if n >= 10 {
        lemma_decimal_facts(n / 10);
        let d = decimal(n);
        assert(d.drop_last() =~= decimal(n / 10));
        assert(d.last() == digit_char(n % 10));
        assert(digits_value(d) == digits_value(decimal(n / 10)) * 10 + digit_value(d.last()));
        assert(n == (n / 10) * 10 + n % 10);
        assert forall|i: int| 0 <= i < d.len() implies is_digit(#[trigger] d[i]) by {
            if i < d.len() - 1 {
                assert(d[i] == decimal(n / 10)[i]);
            }
        }
        assert forall|i: int| 0 <= i < d.len() implies '\0' <= #[trigger] d[i] <= '\u{7f}' by {
            if i < d.len() - 1 {
                assert(d[i] == decimal(n / 10)[i]);
            }
        }
    } else {
        let d = decimal(n);
        assert(d.drop_last() =~= Seq::<char>::empty());
        assert(digits_value(d) == digits_value(d.drop_last()) * 10 + digit_value(d.last()));
        assert(digits_value(Seq::<char>::empty()) == 0);
    }
}

/// Parsing the decimal text of a number gives the number back.
pub proof fn lemma_parse_decimal_u64(v: u64)
    ensures
        spec_parse_u64(decimal(v as nat)) == Some(v),
{
    lemma_decimal_facts(v as nat);
}

/// Parsing the signed decimal text of a number gives the number back.
pub proof fn lemma_parse_decimal_i64(v: i64)
    ensures
        spec_parse_i64(signed_decimal(v as int)) == Some(v),
{
    if v < 0 {
        let m = (0 - v) as nat;
        lemma_decimal_facts(m);
        let s = signed_decimal(v as int);
        assert(s.drop_first() =~= decimal(m));
    } else {
        lemma_decimal_facts(v as nat);
    }
}

pub proof fn lemma_ascii_encoding(s: Seq<char>)
    requires
        is_ascii_chars(s),
    ensures
        encode_utf8(s) == ascii_bytes(s),
{
    vstd::utf8::is_ascii_chars_encode_utf8(s);
    assert(encode_utf8(s) =~= ascii_bytes(s));
}

/// Appends the decimal digits of `v`.
pub(crate) fn push_decimal(out: &mut Vec<u8>, v: u64)
    ensures
        final(out)@ == old(out)@ + ascii_bytes(decimal(v as nat)),
    decreases v,
{
    if v >= 10 {
        push_decimal(out, v / 10);
    }
    let d: u8 = (v % 10) as u8;
    let c: u8 = 48u8 + d;
    out.push(c);
    proof {
        let n = v as nat;
        if n >= 10 {
            assert(ascii_bytes(decimal(n)) =~= ascii_bytes(decimal(n / 10)).push(c));
        } else {
            assert(ascii_bytes(decimal(n)) =~= seq![c]);
        }
        assert(out@ =~= old(out)@ + ascii_bytes(decimal(v as nat)));
    }
}

/// Appends the signed decimal text of `v`.
pub(crate) fn push_signed_decimal(out: &mut Vec<u8>, v: i64)
    ensures
        final(out)@ == old(out)@ + ascii_bytes(signed_decimal(v as int)),
{
    if v < 0 {
        out.push(45u8);
        let wide: i128 = v as i128;
        let m: u64 = (0i128 - wide) as u64;
        let ghost mid = out@;
        push_decimal(out, m);
        proof {
            assert(ascii_bytes(signed_decimal(v as int)) =~= seq![45u8] + ascii_bytes(decimal(m as nat)));
            assert(out@ =~= old(out)@ + ascii_bytes(signed_decimal(v as int)));
        }
    } else {
        push_decimal(out, v as u64);
    }
}

/// Builds the decimal text of a byte as a `String`.
pub fn byte_to_string(b: u8) -> (res: String)
    ensures
        res@ == decimal(b as nat),
{
    let mut bytes: Vec<u8> = Vec::new();
    push_decimal(&mut bytes, b as u64);
    proof {
        lemma_decimal_facts(b as nat);
        lemma_ascii_encoding(decimal(b as nat));
        vstd::utf8::encode_utf8_valid_utf8(decimal(b as nat));
        vstd::utf8::encode_utf8_decode_utf8(decimal(b as nat));
    }
    match crate::text::utf8_str(bytes.as_slice()) {
        Some(s) => s.to_owned(),
        None => {
            proof {
                assert(false);
            }
            String::new()
        },
    }
}

/// The eight big-endian bytes of a `u64`.
pub open spec fn u64_be_bytes(v: u64) -> Seq<u8> {
    seq![
        ((v >> 56) & 0xff) as u8,
        ((v >> 48) & 0xff) as u8,
        ((v >> 40) & 0xff) as u8,
        ((v >> 32) & 0xff) as u8,
        ((v >> 24) & 0xff) as u8,
        ((v >> 16) & 0xff) as u8,
        ((v >> 8) & 0xff) as u8,
        (v & 0xff) as u8,
    ]
}

/// The `u64` written by eight big-endian bytes.
pub open spec fn u64_from_be(b: Seq<u8>) -> u64
    recommends
        b.len() == 8,
{
    (b[0] as u64) << 56 | (b[1] as u64) << 48 | (b[2] as u64) << 40 | (b[3] as u64) << 32 | (
    b[4] as u64) << 24 | (b[5] as u64) << 16 | (b[6] as u64) << 8 | (b[7] as u64)
}

/// The four big-endian bytes of a `u32`.
pub open spec fn u32_be_bytes(v: u32) -> Seq<u8> {
    seq![((v >> 24) & 0xff) as u8, ((v >> 16) & 0xff) as u8, ((v >> 8) & 0xff) as u8, (v & 0xff) as u8]
}

/// The four little-endian bytes of a `u32`.
pub open spec fn u32_le_bytes(v: u32) -> Seq<u8> {
    seq![(v & 0xff) as u8, ((v >> 8) & 0xff) as u8, ((v >> 16) & 0xff) as u8, ((v >> 24) & 0xff) as u8]
}

/// The `u32` written by four big-endian bytes.
pub open spec fn u32_from_be(b: Seq<u8>) -> u32
    recommends
        b.len() == 4,
{
    (b[0] as u32) << 24 | (b[1] as u32) << 16 | (b[2] as u32) << 8 | (b[3] as u32)
}

/// The eight big-endian bytes of an `i64` in two's complement.
pub open spec fn i64_be_bytes(v: i64) -> Seq<u8> {
    u64_be_bytes(v as u64)
}

/// The `i64` written in two's complement by eight big-endian bytes.
pub open spec fn i64_from_be(b: Seq<u8>) -> i64 {
    u64_from_be(b) as i64
}

pub proof fn lemma_u64_be_roundtrip(v: u64)
    ensures
        u64_from_be(u64_be_bytes(v)) == v,
{
    let b = u64_be_bytes(v);
    let (b0, b1, b2, b3, b4, b5, b6, b7) = (b[0], b[1], b[2], b[3], b[4], b[5], b[6], b[7]);
    assert((b0 as u64) << 56 | (b1 as u64) << 48 | (b2 as u64) << 40 | (b3 as u64) << 32 | (
    b4 as u64) << 24 | (b5 as u64) << 16 | (b6 as u64) << 8 | (b7 as u64) == v) by (bit_vector)
        requires
            b0 == ((v >> 56) & 0xff) as u8,
            b1 == ((v >> 48) & 0xff) as u8,
            b2 == ((v >> 40) & 0xff) as u8,
            b3 == ((v >> 32) & 0xff) as u8,
            b4 == ((v >> 24) & 0xff) as u8,
            b5 == ((v >> 16) & 0xff) as u8,
            b6 == ((v >> 8) & 0xff) as u8,
            b7 == (v & 0xff) as u8,
    ;
}

pub proof fn lemma_i64_be_roundtrip(v: i64)
    ensures
        i64_from_be(i64_be_bytes(v)) == v,
{
    lemma_u64_be_roundtrip(v as u64);
    assert(((v as u64) as i64) == v) by (bit_vector);
}

pub proof fn lemma_u32_be_roundtrip(v: u32)
    ensures
        u32_from_be(u32_be_bytes(v)) == v,
{
    let b = u32_be_bytes(v);
    let (b0, b1, b2, b3) = (b[0], b[1], b[2], b[3]);
    assert((b0 as u32) << 24 | (b1 as u32) << 16 | (b2 as u32) << 8 | (b3 as u32) == v)
        by (bit_vector)
        requires
            b0 == ((v >> 24) & 0xff) as u8,
            b1 == ((v >> 16) & 0xff) as u8,
            b2 == ((v >> 8) & 0xff) as u8,
            b3 == (v & 0xff) as u8,
    ;
}

/// A length whose little-endian bytes read back as the same number when read
/// big-endian: its four bytes form a palindrome.
pub open spec fn le_reads_as_be(v: u32) -> bool {
    u32_le_bytes(v) == u32_be_bytes(v)
}

pub proof fn lemma_u32_le_read_be(v: u32)
    requires
        le_reads_as_be(v),
    ensures
        u32_from_be(u32_le_bytes(v)) == v,
{
    lemma_u32_be_roundtrip(v);
}

/// Reads a big-endian `u64` at `pos`.
pub(crate) fn read_u64_be(b: &[u8], pos: usize) -> (v: u64)
    requires
        pos + 8 <= b@.len(),
    ensures
        v == u64_from_be(b@.subrange(pos as int, pos + 8)),
{
    (b[pos] as u64) << 56 | (b[pos + 1] as u64) << 48 | (b[pos + 2] as u64) << 40 | (b[pos
        + 3] as u64) << 32 | (b[pos + 4] as u64) << 24 | (b[pos + 5] as u64) << 16 | (b[pos
        + 6] as u64) << 8 | (b[pos + 7] as u64)
}

/// Reads a big-endian `u32` at `pos`.
pub(crate) fn read_u32_be(b: &[u8], pos: usize) -> (v: u32)
    requires
        pos + 4 <= b@.len(),
    ensures
        v == u32_from_be(b@.subrange(pos as int, pos + 4)),
{
    (b[pos] as u32) << 24 | (b[pos + 1] as u32) << 16 | (b[pos + 2] as u32) << 8 | (b[pos
        + 3] as u32)
}

pub(crate) fn push_u64_be(out: &mut Vec<u8>, v: u64)
    ensures
        final(out)@ == old(out)@ + u64_be_bytes(v),
{
    out.push(((v >> 56) & 0xff) as u8);
    out.push(((v >> 48) & 0xff) as u8);
    out.push(((v >> 40) & 0xff) as u8);
    out.push(((v >> 32) & 0xff) as u8);
    out.push(((v >> 24) & 0xff) as u8);
    out.push(((v >> 16) & 0xff) as u8);
    out.push(((v >> 8) & 0xff) as u8);
    out.push((v & 0xff) as u8);
    assert(out@ =~= old(out)@ + u64_be_bytes(v));
}

pub(crate) fn push_u32_be(out: &mut Vec<u8>, v: u32)
    ensures
        final(out)@ == old(out)@ + u32_be_bytes(v),
{
    out.push(((v >> 24) & 0xff) as u8);
    out.push(((v >> 16) & 0xff) as u8);
    out.push(((v >> 8) & 0xff) as u8);
    out.push((v & 0xff) as u8);
    assert(out@ =~= old(out)@ + u32_be_bytes(v));
}

pub(crate) fn push_u32_le(out: &mut Vec<u8>, v: u32)
    ensures
        final(out)@ == old(out)@ + u32_le_bytes(v),
{
    out.push((v & 0xff) as u8);
    out.push(((v >> 8) & 0xff) as u8);
    out.push(((v >> 16) & 0xff) as u8);
    out.push(((v >> 24) & 0xff) as u8);
    assert(out@ =~= old(out)@ + u32_le_bytes(v));
}

} // verus!

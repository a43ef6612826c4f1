//! Text handling: NUL-padded UTF-8 string fields, byte-wise ordering of
//! source paths, and decimal rendering for the report.

use vstd::prelude::*;
use vstd::slice::slice_subrange;
use vstd::string::{StringExecFns, StringSliceAdditionalSpecFns};
use vstd::utf8::{decode_utf8, valid_utf8};
use crate::errors::{ParseError, MALFORMED_STRING};

verus! {

/// `b` without its trailing NUL bytes.
pub open spec fn strip_trailing_zeros(b: Seq<u8>) -> Seq<u8>
    decreases b.len(),
{
    if b.len() > 0 && b[b.len() - 1] == 0 {
        strip_trailing_zeros(b.drop_last())
    } else {
        b
    }
}

/// Relies on `core::str::from_utf8`: it succeeds exactly on valid UTF-8 and
/// reinterprets the bytes as text, so the result's characters decode the
/// input bytes.
#[verifier::external_body]
fn utf8_str(buffer: &[u8]) -> (r: Option<&str>)
    ensures
        r is Some <==> valid_utf8(buffer@),
        r matches Some(s) ==> s@ == decode_utf8(buffer@),
{
    core::str::from_utf8(buffer).ok()
}

/// What `read_utf8` returns on `b`: the bytes that remain after stripping
/// the trailing NUL padding, decoded as UTF-8, or a malformed-string error.
pub open spec fn spec_read_utf8(b: Seq<u8>) -> Result<Seq<char>, ParseError> {
    if valid_utf8(strip_trailing_zeros(b)) {
        Ok(decode_utf8(strip_trailing_zeros(b)))
    } else {
        Err(ParseError { code: MALFORMED_STRING })
    }
}

/// Strips the trailing NUL padding of a string field and decodes what
/// remains as UTF-8. An all-NUL or empty field decodes to the empty string.
pub fn read_utf8(buffer: &[u8]) -> (r: Result<&str, ParseError>)
    ensures
        r matches Ok(s) ==> spec_read_utf8(buffer@) == Ok::<Seq<char>, ParseError>(s@),
        r matches Err(e) ==> spec_read_utf8(buffer@) == Err::<Seq<char>, ParseError>(e),
{
    let mut end: usize = buffer.len();
    proof {
        assert(buffer@.subrange(0, end as int) =~= buffer@);
    }
    while end > 0 && buffer[end - 1] == 0
        invariant
            end <= buffer@.len(),
            strip_trailing_zeros(buffer@) == strip_trailing_zeros(buffer@.subrange(0, end as int)),
        decreases end,
    {
        proof {
            assert(buffer@.subrange(0, end as int).drop_last() =~= buffer@.subrange(
                0,
                end as int - 1,
            ));
        }
        end = end - 1;
    }
    proof {
        assert(strip_trailing_zeros(buffer@) =~= buffer@.subrange(0, end as int));
    }
    let content = slice_subrange(buffer, 0, end);
    match utf8_str(content) {
        Some(s) => Ok(s),
        None => Err(ParseError::new(MALFORMED_STRING)),
    }
}

/// Strict lexicographic order on byte sequences.
pub open spec fn bytes_lt(a: Seq<u8>, b: Seq<u8>) -> bool
    decreases a.len(),
{
    if b.len() == 0 {
        false
    } else if a.len() == 0 {
        true
    } else if a[0] < b[0] {
        true
    } else if a[0] > b[0] {
        false
    } else {
        bytes_lt(a.drop_first(), b.drop_first())
    }
}

/// Strict order on text: lexicographic on the UTF-8 encodings.
pub open spec fn text_lt(a: Seq<char>, b: Seq<char>) -> bool {
    bytes_lt(vstd::utf8::encode_utf8(a), vstd::utf8::encode_utf8(b))
}

/// Exactly one of `a < b`, `a == b`, `b < a` holds.
pub proof fn lemma_bytes_lt_trichotomy(a: Seq<u8>, b: Seq<u8>)
    ensures
        bytes_lt(a, b) || bytes_lt(b, a) || a == b,
        bytes_lt(a, b) ==> !bytes_lt(b, a) && a != b,
        bytes_lt(b, a) ==> !bytes_lt(a, b) && a != b,
    decreases a.len(),
{
    if a.len() > 0 && b.len() > 0 && a[0] == b[0] {
        lemma_bytes_lt_trichotomy(a.drop_first(), b.drop_first());
        if a.drop_first() == b.drop_first() {
            assert forall|i: int| 0 <= i < a.len() implies a[i] == b[i] by {
                if i > 0 {
                    assert(a[i] == a.drop_first()[i - 1]);
                    assert(b[i] == b.drop_first()[i - 1]);
                }
            }
            assert(a =~= b);
        }
    }
}

/// The order is transitive.
pub proof fn lemma_bytes_lt_transitive(a: Seq<u8>, b: Seq<u8>, c: Seq<u8>)
    requires
        bytes_lt(a, b),
        bytes_lt(b, c),
    ensures
        bytes_lt(a, c),
    decreases a.len(),
{
    if a.len() > 0 && b.len() > 0 && c.len() > 0 {
        if a[0] == b[0] && b[0] == c[0] {
            lemma_bytes_lt_transitive(a.drop_first(), b.drop_first(), c.drop_first());
        }
    }
}

/// Two texts with the same UTF-8 encoding are the same text.
pub proof fn lemma_encode_injective(a: Seq<char>, b: Seq<char>)
    requires
        vstd::utf8::encode_utf8(a) == vstd::utf8::encode_utf8(b),
    ensures
        a == b,
{
    vstd::utf8::encode_utf8_decode_utf8(a);
    vstd::utf8::encode_utf8_decode_utf8(b);
}

/// Exactly one of `a < b`, `a == b`, `b < a` holds of two texts.
pub proof fn lemma_text_lt_trichotomy(a: Seq<char>, b: Seq<char>)
    ensures
        text_lt(a, b) || text_lt(b, a) || a == b,
        text_lt(a, b) ==> !text_lt(b, a) && a != b,
        text_lt(b, a) ==> !text_lt(a, b) && a != b,
{
    lemma_bytes_lt_trichotomy(vstd::utf8::encode_utf8(a), vstd::utf8::encode_utf8(b));
    if vstd::utf8::encode_utf8(a) == vstd::utf8::encode_utf8(b) {
        lemma_encode_injective(a, b);
    }
}

/// The order on texts is transitive.
pub proof fn lemma_text_lt_transitive(a: Seq<char>, b: Seq<char>, c: Seq<char>)
    requires
        text_lt(a, b),
        text_lt(b, c),
    ensures
        text_lt(a, c),
{
    lemma_bytes_lt_transitive(
        vstd::utf8::encode_utf8(a),
        vstd::utf8::encode_utf8(b),
        vstd::utf8::encode_utf8(c),
    );
}

/// Compares two strings by the lexicographic order of their UTF-8 bytes.
pub fn str_lt(a: &str, b: &str) -> (r: bool)
    ensures
        r == bytes_lt(a.spec_bytes(), b.spec_bytes()),
{
    let ab = a.as_bytes();
    let bb = b.as_bytes();
    let mut i: usize = 0;
    proof {
        assert(ab@.skip(0) =~= ab@);
        assert(bb@.skip(0) =~= bb@);
    }
    loop
        invariant
            i <= ab@.len(),
            i <= bb@.len(),
            ab@ == a.spec_bytes(),
            bb@ == b.spec_bytes(),
            bytes_lt(a.spec_bytes(), b.spec_bytes()) == bytes_lt(
                ab@.skip(i as int),
                bb@.skip(i as int),
            ),
        decreases ab@.len() - i,
    {
        if i >= bb.len() {
            return false;
        }
        if i >= ab.len() {
            return true;
        }
        let x = ab[i];
        let y = bb[i];
        if x < y {
            return true;
        }
        if x > y {
            return false;
        }
        proof {
            assert(ab@.skip(i as int).drop_first() =~= ab@.skip(i as int + 1));
            assert(bb@.skip(i as int).drop_first() =~= bb@.skip(i as int + 1));
        }
        i = i + 1;
    }
}

/// The decimal digit for a value below ten.
pub open spec fn dec_digit(d: int) -> char {
    if d == 0 {
        '0'
    } else if d == 1 {
        '1'
    } else if d == 2 {
        '2'
    } else if d == 3 {
        '3'
    } else if d == 4 {
        '4'
    } else if d == 5 {
        '5'
    } else if d == 6 {
        '6'
    } else if d == 7 {
        '7'
    } else if d == 8 {
        '8'
    } else {
        '9'
    }
}

/// The decimal rendering of a nonnegative integer, most significant digit
/// first, with no leading zeros (zero itself renders as "0").
pub open spec fn dec_str(n: int) -> Seq<char>
    decreases n,
{
    if n < 10 {
        seq![dec_digit(n)]
    } else {
        dec_str(n / 10).push(dec_digit(n % 10))
    }
}

/// A one-character string for a decimal digit.
fn digit_str(d: u64) -> (r: &'static str)
    requires
        d < 10,
    ensures
        r@ == seq![dec_digit(d as int)],
{
    let r: &'static str = if d == 0 {
        "0"
    } else if d == 1 {
        "1"
    } else if d == 2 {
        "2"
    } else if d == 3 {
        "3"
    } else if d == 4 {
        "4"
    } else if d == 5 {
        "5"
    } else if d == 6 {
        "6"
    } else if d == 7 {
        "7"
    } else if d == 8 {
        "8"
    } else {
        "9"
    };
    proof {
        reveal_strlit("0");
        reveal_strlit("1");
        reveal_strlit("2");
        reveal_strlit("3");
        reveal_strlit("4");
        reveal_strlit("5");
        reveal_strlit("6");
        reveal_strlit("7");
        reveal_strlit("8");
        reveal_strlit("9");
        assert(r@ =~= seq![dec_digit(d as int)]);
    }
    r
}

/// Renders a count in decimal.
pub fn u64_to_dec(x: u64) -> (r: String)
    ensures
        r@ == dec_str(x as int),
    decreases x,
{
    if x < 10 {
        String::from_str(digit_str(x))
    } else {
        let mut s = u64_to_dec(x / 10);
        s.append(digit_str(x % 10));
        proof {
            assert(dec_str(x as int) =~= dec_str(x as int / 10).push(dec_digit(x as int % 10)));
            assert(dec_str(x as int / 10).push(dec_digit(x as int % 10)) =~= dec_str(
                x as int / 10,
            ) + seq![dec_digit(x as int % 10)]);
        }
        s
    }
}

/// Renders a line number in decimal.
pub fn u32_to_dec(x: u32) -> (r: String)
    ensures
        r@ == dec_str(x as int),
{
    u64_to_dec(x as u64)
}

} // verus!

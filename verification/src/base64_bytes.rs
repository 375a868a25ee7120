//! The text form of optional bytes: standard, padded base64.

use base64::engine::general_purpose::STANDARD;
use base64::Engine;
use vstd::prelude::*;

use crate::layout::{ceil_div, lemma_ceil_div};

verus! {

/// The symbol of the standard base64 alphabet for the six bits `v`.
pub open spec fn base64_symbol(v: int) -> char {
    if v < 26 {
        ('A' as int + v) as char
    } else if v < 52 {
        ('a' as int + v - 26) as char
    } else if v < 62 {
        ('0' as int + v - 52) as char
    } else if v == 62 {
        '+'
    } else {
        '/'
    }
}

/// The standard, padded base64 text of `bytes`: four symbols for every three bytes, the last group
/// padded with `=`.
pub open spec fn base64_text(bytes: Seq<u8>) -> Seq<char>
    decreases bytes.len(),
{
    if bytes.len() == 0 {
        seq![]
    } else {
        let a = bytes[0] as int;
        let b = if bytes.len() > 1 { bytes[1] as int } else { 0 };
        let c = if bytes.len() > 2 { bytes[2] as int } else { 0 };
        seq![
            base64_symbol(a / 4),
            base64_symbol(a % 4 * 16 + b / 16),
            if bytes.len() > 1 { base64_symbol(b % 16 * 4 + c / 64) } else { '=' },
            if bytes.len() > 2 { base64_symbol(c % 64) } else { '=' },
        ] + base64_text(if bytes.len() > 3 { bytes.skip(3) } else { seq![] })
    }
}

/// What the `base64` crate says of a text that it does not decode.
pub uninterp spec fn decode_error_text(text: Seq<char>) -> Seq<char>;

/// Calls `base64`'s `STANDARD.encode`, which gives the standard, padded base64 text of its input.
/// It panics where that text is too long for a `String`: those inputs are left out.
#[verifier::external_body]
fn encode(bytes: &Vec<u8>) -> (r: String)
    requires
        bytes@.len() <= isize::MAX / 4 * 3,
    ensures
        r@ == base64_text(bytes@),
{
    STANDARD.encode(bytes)
}

/// Calls `base64`'s `STANDARD.decode`, which is the inverse of `STANDARD.encode`: it accepts a
/// text exactly if it is the canonical, padded form of some bytes, and then gives these bytes. A
/// symbol outside the alphabet, missing or surplus padding and nonzero discarded bits are errors.
/// Which words the error is described with is not stated, only that they depend on the text alone.
#[verifier::external_body]
fn decode(text: &String) -> (r: Result<Vec<u8>, String>)
    ensures
        match r {
            Ok(bytes) => text@ == base64_text(bytes@),
            Err(message) => (forall|bytes: Seq<u8>| text@ != #[trigger] base64_text(bytes))
                && message@ == decode_error_text(text@),
        },
{
    match STANDARD.decode(text) {
        Ok(bytes) => Ok(bytes),
        Err(error) => Err(error.to_string()),
    }
}

/// A text is not the base64 form of any bytes.
#[derive(Clone, Debug, PartialEq, Eq)]
pub struct InvalidBase64 {
    /// What is wrong with the text.
    pub message: String,
}

/// The base64 text of `bytes`, where there are any.
pub fn serialize(bytes: &Option<Vec<u8>>) -> (r: Option<String>)
    requires
        bytes matches Some(bytes) ==> bytes@.len() <= isize::MAX / 4 * 3,
    ensures
        match (*bytes, r) {
            (None, None) => true,
            (Some(bytes), Some(text)) => text@ == base64_text(bytes@),
            _ => false,
        },
{
    match bytes {
        Some(bytes) => Some(encode(bytes)),
        None => None,
    }
}

/// The bytes that `text` is the base64 form of, where there is a text. A text that is not the
/// base64 form of any bytes is an error.
pub fn deserialize(text: Option<String>) -> (r: Result<Option<Vec<u8>>, InvalidBase64>)
    ensures
        text is None ==> r matches Ok(None),
        text matches Some(text) ==> match r {
            Ok(Some(bytes)) => text@ == base64_text(bytes@),
            Ok(None) => false,
            Err(error) => (forall|bytes: Seq<u8>| text@ != #[trigger] base64_text(bytes))
                && error.message@ == decode_error_text(text@),
        },
        text matches Some(text) ==> forall|bytes: Seq<u8>|
            text@ == #[trigger] base64_text(bytes) ==> (r matches Ok(Some(back)) && back@ == bytes),
{
    match text {
        Some(text) => {
            match decode(&text) {
                Ok(bytes) => {
                    proof {
                        assert forall|other: Seq<u8>| text@ == #[trigger] base64_text(
                            other,
                        ) implies bytes@ == other by {
                            texts_determine_bytes(bytes@, other);
                        }
                    }
                    Ok(Some(bytes))
                },
                Err(message) => Err(InvalidBase64 { message }),
            }
        },
        None => Ok(None),
    }
}

/// Two byte sequences with the same base64 text are the same.
pub proof fn texts_determine_bytes(a: Seq<u8>, b: Seq<u8>)
    requires
        base64_text(a) == base64_text(b),
    ensures
        a == b,
    decreases a.len(),
{
    let s = base64_text(a);
    let t = base64_text(b);
    text_length(a);
    text_length(b);
    lemma_ceil_div(a.len() as int, 3);
    lemma_ceil_div(b.len() as int, 3);
    if a.len() > 0 && b.len() > 0 {
        let x = if a.len() > 3 { a.skip(3) } else { seq![] };
        let y = if b.len() > 3 { b.skip(3) } else { seq![] };
        assert(s[0] == t[0] && s[1] == t[1] && s[2] == t[2] && s[3] == t[3]);
        assert(s.skip(4) =~= base64_text(x));
        assert(t.skip(4) =~= base64_text(y));
        texts_determine_bytes(x, y);
        let a1 = if a.len() > 1 { a[1] as int } else { 0 };
        let b1 = if b.len() > 1 { b[1] as int } else { 0 };
        let a2 = if a.len() > 2 { a[2] as int } else { 0 };
        let b2 = if b.len() > 2 { b[2] as int } else { 0 };
        lemma_symbols_differ(a[0] as int / 4, b[0] as int / 4);
        lemma_symbols_differ(a[0] as int % 4 * 16 + a1 / 16, b[0] as int % 4 * 16 + b1 / 16);
        lemma_symbols_differ(a1 % 16 * 4 + a2 / 64, b1 % 16 * 4 + b2 / 64);
        lemma_symbols_differ(a2 % 64, b2 % 64);
        assert(a.len() > 1 <==> b.len() > 1);
        assert(a.len() > 2 <==> b.len() > 2);
        assert(a[0] == b[0]);
        assert(a1 == b1);
        assert(a2 == b2);
        assert(a.len() == b.len());
        assert forall|i: int| 0 <= i < a.len() implies a[i] == b[i] by {
            if i >= 3 {
                assert(x[i - 3] == y[i - 3]);
            }
        }
    }
    assert(a =~= b);
}

/// Distinct six-bit values have distinct symbols, none of which is the padding.
proof fn lemma_symbols_differ(v: int, w: int)
    requires
        0 <= v < 64,
        0 <= w < 64,
    ensures
        base64_symbol(v) == base64_symbol(w) ==> v == w,
        base64_symbol(v) != '=',
        base64_symbol(w) != '=',
{
}

/// The base64 text of `n` bytes has four symbols for every three of them, the last group rounded
/// up.
pub proof fn text_length(bytes: Seq<u8>)
    ensures
        base64_text(bytes).len() == 4 * ceil_div(bytes.len() as int, 3),
    decreases bytes.len(),
{
    if bytes.len() > 3 {
        text_length(bytes.skip(3));
    } else {
        reveal_with_fuel(base64_text, 2);
    }
}

/// The symbols stand for their places in the standard alphabet.
pub proof fn symbols_are_those_of_the_standard_alphabet(v: int)
    requires
        0 <= v < 64,
    ensures
        base64_symbol(v)
            == "ABCDEFGHIJKLMNOPQRSTUVWXYZabcdefghijklmnopqrstuvwxyz0123456789+/"@[v],
{
    reveal_strlit("ABCDEFGHIJKLMNOPQRSTUVWXYZabcdefghijklmnopqrstuvwxyz0123456789+/");
}

/// The text of bytes of which the first are a multiple of three is the text of those, followed by
/// the text of the others: groups do not depend on each other.
pub proof fn groups_are_independent(a: Seq<u8>, b: Seq<u8>)
    requires
        a.len() % 3 == 0,
    ensures
        base64_text(a + b) == base64_text(a) + base64_text(b),
    decreases a.len(),
{
    if a.len() == 0 {
        assert(a + b =~= b);
        assert(base64_text(a) + base64_text(b) =~= base64_text(b));
    } else {
        let rest = if a.len() > 3 { a.skip(3) } else { seq![] };
        let all_rest = if (a + b).len() > 3 { (a + b).skip(3) } else { seq![] };
        assert(all_rest =~= rest + b);
        groups_are_independent(rest, b);
        assert((a + b)[0] == a[0] && (a + b)[1] == a[1] && (a + b)[2] == a[2]);
        assert(base64_text(a + b) =~= base64_text(a) + base64_text(b));
    }
}

/// A group of three bytes is four symbols that are the same number: three digits to the base 256 are
/// four to the base 64. With one byte or two, the digits that are missing count as zero, and the
/// symbols that would hold nothing of them are padding.
pub proof fn a_group_is_a_number_to_another_base(bytes: Seq<u8>)
    requires
        1 <= bytes.len() <= 3,
    ensures
        base64_text(bytes).len() == 4,
        exists|p: int, q: int, r: int, s: int|
            #![trigger base64_symbol(p), base64_symbol(q), base64_symbol(r), base64_symbol(s)]
            {
                &&& 0 <= p < 64 && 0 <= q < 64 && 0 <= r < 64 && 0 <= s < 64
                &&& 262144 * p + 4096 * q + 64 * r + s == 65536 * bytes[0] + 256 * (if bytes.len()
                    > 1 {
                    bytes[1] as int
                } else {
                    0
                }) + (if bytes.len() > 2 {
                    bytes[2] as int
                } else {
                    0
                })
                &&& base64_text(bytes)[0] == base64_symbol(p)
                &&& base64_text(bytes)[1] == base64_symbol(q)
                &&& base64_text(bytes)[2] == if bytes.len() > 1 { base64_symbol(r) } else { '=' }
                &&& base64_text(bytes)[3] == if bytes.len() > 2 { base64_symbol(s) } else { '=' }
            },
{
    reveal_with_fuel(base64_text, 2);
    let a = bytes[0] as int;
    let b = if bytes.len() > 1 { bytes[1] as int } else { 0 };
    let c = if bytes.len() > 2 { bytes[2] as int } else { 0 };
    let p = a / 4;
    let q = a % 4 * 16 + b / 16;
    let r = b % 16 * 4 + c / 64;
    let s = c % 64;
    assert(base64_text(bytes)[0] == base64_symbol(p));
    assert(base64_text(bytes)[1] == base64_symbol(q));
    assert(bytes.len() > 1 ==> base64_text(bytes)[2] == base64_symbol(r));
    assert(bytes.len() > 2 ==> base64_text(bytes)[3] == base64_symbol(s));
    assert(262144 * p + 4096 * q + 64 * r + s == 65536 * a + 256 * b + c);
    let used = (base64_symbol(r), base64_symbol(s));
}

} // verus!

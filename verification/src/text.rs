//! Keys as text: what is read out of an input, and how a key is printed.

use crate::alphabet::is_alphanumeric;
use vstd::prelude::*;

verus! {

/// The test that keeps the ASCII letters and digits of an input.
pub open spec fn keeps() -> spec_fn(u8) -> bool {
    |b: u8| is_alphanumeric(b)
}

/// The ASCII letters and digits of `input`, in their order; all else is
/// dropped.
pub open spec fn sanitized(input: Seq<u8>) -> Seq<u8> {
    input.filter(keeps())
}

/// The code of the hyphen that parts groups of five symbols.
pub const SEPARATOR: u8 = 0x2D;

/// The 25 symbols of `key` in five groups of five with a hyphen between
/// neighbours: 29 bytes.
pub open spec fn grouped(key: Seq<u8>) -> Seq<u8> {
    key.subrange(0, 5) + seq![SEPARATOR] + key.subrange(5, 10) + seq![SEPARATOR] + key.subrange(
        10,
        15,
    ) + seq![SEPARATOR] + key.subrange(15, 20) + seq![SEPARATOR] + key.subrange(20, 25)
}

/// ASCII bytes as characters.
pub open spec fn as_text(bytes: Seq<u8>) -> Seq<char> {
    Seq::new(bytes.len(), |i: int| bytes[i] as char)
}

/// A key as it is printed, with or without separators.
pub open spec fn rendering(key: Seq<u8>, separators: bool) -> Seq<char> {
    as_text(
        if separators {
            grouped(key)
        } else {
            key
        },
    )
}

/// Whether `b` is an ASCII letter or digit.
pub fn is_ascii_alphanumeric(b: u8) -> (yes: bool)
    ensures
        yes == is_alphanumeric(b),
{
    (0x30 <= b && b <= 0x39) || (0x41 <= b && b <= 0x5A) || (0x61 <= b && b <= 0x7A)
}

/// The ASCII letters and digits of `input`, in their order.
pub fn sanitize(input: &[u8]) -> (key: Vec<u8>)
    ensures
        key@ == sanitized(input@),
{
    let mut key: Vec<u8> = Vec::new();
    let mut i: usize = 0;
    proof {
        input@.take(0).lemma_filter_len(keeps());
    }
    while i < input.len()
        invariant
            i <= input.len(),
            key@ == sanitized(input@.take(i as int)),
        decreases input.len() - i,
    {
        let b = input[i];
        proof {
            let seen = input@.take(i as int);
            assert(input@.take(i + 1) =~= seen.push(b));
            seen.lemma_filter_push(b, keeps());
        }
        if is_ascii_alphanumeric(b) {
            key.push(b);
        }
        i += 1;
    }
    assert(input@.take(i as int) =~= input@);
    key
}

/// The text that ASCII bytes spell, by `String::from_utf8`. Believed of it:
/// the text has one character for each byte, the one with the byte's code.
/// On bytes that are not UTF-8 the conversion fails, so all of them are
/// asked to be ASCII.
#[verifier::external_body]
fn ascii_string(bytes: Vec<u8>) -> (text: String)
    requires
        forall|i: int| 0 <= i < bytes@.len() ==> bytes@[i] < 128,
    ensures
        text@ == as_text(bytes@),
{
    String::from_utf8(bytes).unwrap()
}

/// Prints a key of ASCII symbols, in groups of five with hyphens between
/// them where `separators` is set.
pub fn format_key(key: &[u8; 25], separators: bool) -> (text: String)
    requires
        forall|i: int| 0 <= i < 25 ==> key@[i] < 128,
    ensures
        text@ == rendering(key@, separators),
{
    let mut bytes: Vec<u8> = Vec::new();
    let mut i: usize = 0;
    while i < 25
        invariant
            i <= 25,
            bytes@ == key@.take(i as int),
        decreases 25 - i,
    {
        bytes.push(key[i]);
        assert(key@.take(i + 1) =~= key@.take(i as int).push(key@[i as int]));
        i += 1;
    }
    assert(bytes@ =~= key@);
    if separators {
        bytes.insert(20, SEPARATOR);
        bytes.insert(15, SEPARATOR);
        bytes.insert(10, SEPARATOR);
        bytes.insert(5, SEPARATOR);
        assert(bytes@ =~= grouped(key@));
    }
    ascii_string(bytes)
}

} // verus!

//! The ordered alphabet of 34 symbols that serve as base-34 digits.

use vstd::prelude::*;

verus! {

/// Number of symbols in the alphabet, the radix of every key part.
pub const KEYS_SIZE: i32 = 34;

/// The alphabet in digit order, as ASCII codes: the symbol at index `d` stands
/// for digit `d`.
pub const KEY_CHARS: [u8; 34] = [
    0x44, 0x59, 0x31, 0x34, 0x55, 0x46, 0x33, 0x52,  // D Y 1 4 U F 3 R
    0x48, 0x57, 0x43, 0x58, 0x4C, 0x51, 0x42, 0x36,  // H W C X L Q B 6
    0x49, 0x4B, 0x4A, 0x54, 0x39, 0x4E, 0x35, 0x41,  // I K J T 9 N 5 A
    0x47, 0x53, 0x32, 0x50, 0x4D, 0x38, 0x56, 0x5A,  // G S 2 P M 8 V Z
    0x37, 0x45,  // 7 E
];

/// The alphabet as a sequence of 34 bytes.
pub open spec fn alphabet() -> Seq<u8> {
    KEY_CHARS@
}

/// Whether `c` is one of the 34 symbols.
pub open spec fn is_symbol(c: u8) -> bool {
    alphabet().contains(c)
}

/// The digit that `c` stands for: its index in the alphabet, and 0 for a
/// byte that is no symbol.
pub open spec fn digit_of(c: u8) -> int {
    if is_symbol(c) {
        alphabet().index_of(c)
    } else {
        0
    }
}

/// Whether `c` is an ASCII letter or digit.
pub open spec fn is_alphanumeric(c: u8) -> bool {
    ||| 0x30 <= c <= 0x39
    ||| 0x41 <= c <= 0x5A
    ||| 0x61 <= c <= 0x7A
}

/// Position of each symbol, written out; used to tell the symbols apart.
spec fn rank(c: u8) -> int {
    if c == 0x44 { 0 } else if c == 0x59 { 1 } else if c == 0x31 { 2 } else if c == 0x34 { 3 }
    else if c == 0x55 { 4 } else if c == 0x46 { 5 } else if c == 0x33 { 6 } else if c == 0x52 { 7 }
    else if c == 0x48 { 8 } else if c == 0x57 { 9 } else if c == 0x43 { 10 } else if c == 0x58 { 11 }
    else if c == 0x4C { 12 } else if c == 0x51 { 13 } else if c == 0x42 { 14 } else if c == 0x36 { 15 }
    else if c == 0x49 { 16 } else if c == 0x4B { 17 } else if c == 0x4A { 18 } else if c == 0x54 { 19 }
    else if c == 0x39 { 20 } else if c == 0x4E { 21 } else if c == 0x35 { 22 } else if c == 0x41 { 23 }
    else if c == 0x47 { 24 } else if c == 0x53 { 25 } else if c == 0x32 { 26 } else if c == 0x50 { 27 }
    else if c == 0x4D { 28 } else if c == 0x38 { 29 } else if c == 0x56 { 30 } else if c == 0x5A { 31 }
    else if c == 0x37 { 32 } else if c == 0x45 { 33 } else { -1 }
}

proof fn lemma_rank_of_symbol(i: int)
    requires
        0 <= i < 34,
    ensures
        rank(alphabet()[i]) == i,
        is_alphanumeric(alphabet()[i]),
{
    assert(i == 0 || i == 1 || i == 2 || i == 3 || i == 4 || i == 5 || i == 6 || i == 7 || i == 8
        || i == 9 || i == 10 || i == 11 || i == 12 || i == 13 || i == 14 || i == 15 || i == 16
        || i == 17 || i == 18 || i == 19 || i == 20 || i == 21 || i == 22 || i == 23 || i == 24
        || i == 25 || i == 26 || i == 27 || i == 28 || i == 29 || i == 30 || i == 31 || i == 32
        || i == 33);
}

/// The alphabet holds 34 symbols, no two of them equal.
pub proof fn lemma_alphabet_distinct()
    ensures
        alphabet().len() == 34,
        alphabet().no_duplicates(),
{
    assert forall|i: int, j: int|
        0 <= i < alphabet().len() && 0 <= j < alphabet().len() && i != j implies alphabet()[i]
        != alphabet()[j] by {
        lemma_rank_of_symbol(i);
        lemma_rank_of_symbol(j);
    }
}

/// Digit and symbol are inverse to each other on the 34 digits.
pub proof fn lemma_digit_of_symbol(d: int)
    requires
        0 <= d < 34,
    ensures
        is_symbol(alphabet()[d]),
        digit_of(alphabet()[d]) == d,
{
    lemma_alphabet_distinct();
    let c = alphabet()[d];
    assert(alphabet().contains(c));
    let k = alphabet().index_of(c);
    assert(0 <= k < 34 && alphabet()[k] == c);
}

/// Every digit is below 34, and a symbol is the one at its digit.
pub proof fn lemma_digit_range(c: u8)
    ensures
        0 <= digit_of(c) < 34,
        is_symbol(c) ==> alphabet()[digit_of(c)] == c,
{
    assert(alphabet().len() == 34);
}

/// Every symbol is an ASCII letter or digit.
pub proof fn lemma_symbol_is_alphanumeric(c: u8)
    requires
        is_symbol(c),
    ensures
        is_alphanumeric(c),
{
    let i = alphabet().index_of(c);
    lemma_rank_of_symbol(i);
}

/// The symbol that stands for digit `digit`.
pub fn symbol_at(digit: usize) -> (c: u8)
    requires
        digit < 34,
    ensures
        c == alphabet()[digit as int],
        is_symbol(c),
        digit_of(c) == digit,
{
    proof {
        lemma_digit_of_symbol(digit as int);
    }
    KEY_CHARS[digit]
}

/// The digit of `c`: the index of its first occurrence in the alphabet, 0
/// where it has none.
pub fn index_of(c: u8) -> (d: i32)
    ensures
        d == digit_of(c),
        0 <= d < 34,
{
    let mut i: usize = 0;
    while i < 34
        invariant
            i <= 34,
            forall|j: int| 0 <= j < i ==> alphabet()[j] != c,
        decreases 34 - i,
    {
        if KEY_CHARS[i] == c {
            proof {
                lemma_digit_of_symbol(i as int);
            }
            return i as i32;
        }
        i += 1;
    }
    assert(alphabet().len() == 34);
    0
}

} // verus!

//! Key parts: runs of symbols read and written as base-34 numbers, most
//! significant digit first.

use crate::alphabet::{
    alphabet, digit_of, index_of, is_symbol, lemma_digit_of_symbol, lemma_digit_range, symbol_at,
    KEYS_SIZE,
};
use crate::entropy::random_in_range;
use vstd::arithmetic::div_mod::{
    lemma_breakdown, lemma_div_denominator, lemma_div_pos_is_pos, lemma_small_mod,
};
use vstd::arithmetic::power::{lemma_pow0, lemma_pow_positive, pow};
use vstd::prelude::*;

verus! {

/// The number that a run of symbols denotes: each symbol is a base-34 digit,
/// the first one the most significant. A byte that is no symbol counts as 0.
pub open spec fn digits_value(symbols: Seq<u8>) -> int
    decreases symbols.len(),
{
    if symbols.len() == 0 {
        0
    } else {
        digits_value(symbols.drop_last()) * 34 + digit_of(symbols.last())
    }
}

/// The `width` lowest base-34 digits of `value` as symbols, most significant
/// first. Digits above `width` are dropped.
pub open spec fn encoded(value: int, width: nat) -> Seq<u8>
    decreases width,
{
    if width == 0 {
        Seq::empty()
    } else {
        encoded(value / 34, (width - 1) as nat).push(alphabet()[value % 34])
    }
}

/// 34 to the power of `width`: the number of values that `width` symbols hold.
pub open spec fn capacity(width: nat) -> int {
    pow(34, width)
}

/// The capacities of the part widths that keys use.
pub proof fn lemma_capacities()
    ensures
        capacity(0) == 1,
        capacity(1) == 34,
        capacity(2) == 1156,
        capacity(3) == 39304,
        capacity(4) == 1336336,
        capacity(5) == 45435424,
        capacity(6) == 1544804416,
{
    reveal_with_fuel(pow, 7);
}

proof fn lemma_capacity_step(width: nat)
    ensures
        capacity(width) > 0,
        capacity(width + 1) == 34 * capacity(width),
{
    lemma_pow_positive(34, width);
    reveal_with_fuel(pow, 2);
}

proof fn lemma_capacity_monotone(a: nat, b: nat)
    requires
        a <= b,
    ensures
        0 < capacity(a) <= capacity(b),
    decreases b - a,
{
    lemma_capacity_step(a);
    if a < b {
        lemma_capacity_monotone(a + 1, b);
    }
}

/// An encoding has as many symbols as were asked for, each of the alphabet.
pub proof fn lemma_encoded_symbols(value: int, width: nat)
    ensures
        encoded(value, width).len() == width,
        forall|i: int| 0 <= i < width ==> is_symbol(#[trigger] encoded(value, width)[i]),
    decreases width,
{
    if width > 0 {
        lemma_encoded_symbols(value / 34, (width - 1) as nat);
        lemma_digit_of_symbol(value % 34);
    }
}

/// Symbol `i` of an encoding is the digit of weight `34^(width - 1 - i)`.
pub proof fn lemma_encoded_index(value: int, width: nat, i: int)
    requires
        0 <= value,
        0 <= i < width,
    ensures
        encoded(value, width)[i] == alphabet()[(value / capacity((width - 1 - i) as nat)) % 34],
    decreases width,
{
    lemma_encoded_symbols(value / 34, (width - 1) as nat);
    if i == width - 1 {
        lemma_pow0(34);
    } else {
        let rest = (width - 2 - i) as nat;
        lemma_encoded_index(value / 34, (width - 1) as nat, i);
        lemma_capacity_step(rest);
        lemma_div_denominator(value, 34, capacity(rest));
    }
}

/// A run of symbols denotes a number below the capacity of its length.
pub proof fn lemma_digits_value_bound(symbols: Seq<u8>)
    ensures
        0 <= digits_value(symbols) < capacity(symbols.len()),
    decreases symbols.len(),
{
    if symbols.len() == 0 {
        lemma_pow0(34);
    } else {
        lemma_digits_value_bound(symbols.drop_last());
        lemma_digit_range(symbols.last());
        lemma_capacity_step((symbols.len() - 1) as nat);
    }
}

/// Reading an encoding gives the value back, reduced to what the width holds.
pub proof fn lemma_decode_encoded(value: int, width: nat)
    requires
        0 <= value,
    ensures
        digits_value(encoded(value, width)) == value % capacity(width),
    decreases width,
{
    if width == 0 {
        lemma_pow0(34);
    } else {
        let rest = (width - 1) as nat;
        let init = encoded(value / 34, rest);
        let whole = encoded(value, width);
        lemma_div_pos_is_pos(value, 34);
        lemma_decode_encoded(value / 34, rest);
        lemma_digit_of_symbol(value % 34);
        assert(whole.drop_last() =~= init);
        lemma_capacity_step(rest);
        lemma_breakdown(value, 34, capacity(rest));
    }
}

/// A value that fits in `width` symbols is read back unchanged.
pub proof fn lemma_decode_encoded_exact(value: int, width: nat)
    requires
        0 <= value < capacity(width),
    ensures
        digits_value(encoded(value, width)) == value,
{
    lemma_decode_encoded(value, width);
    lemma_small_mod(value as nat, capacity(width) as nat);
}

/// Writes `val` into `slice` as base-34 symbols, most significant first,
/// filling it from the right; digits that do not fit are dropped.
pub fn enc_part(val: i32, slice: &mut [u8])
    requires
        val >= 0,
    ensures
        final(slice)@ == encoded(val as int, old(slice)@.len()),
{
    let n = slice.len();
    let mut v: i32 = val;
    let mut i: usize = n;
    proof {
        lemma_pow0(34);
        lemma_encoded_symbols(val as int, n as nat);
    }
    while i > 0
        invariant
            i <= n,
            slice@.len() == n,
            0 <= val,
            0 <= v,
            v == (val as int) / capacity((n - i) as nat),
            forall|j: int| i <= j < n ==> slice@[j] == encoded(val as int, n as nat)[j],
        decreases i,
    {
        i -= 1;
        proof {
            let done = (n - 1 - i) as nat;
            lemma_encoded_index(val as int, n as nat, i as int);
            lemma_capacity_step(done);
            lemma_div_denominator(val as int, capacity(done), 34);
            lemma_div_pos_is_pos(v as int, 34);
        }
        slice[i] = symbol_at((v % KEYS_SIZE) as usize);
        v = v / KEYS_SIZE;
    }
    assert(slice@ =~= encoded(val as int, n as nat));
}

/// Reads `key_part` as a base-34 number, most significant symbol first. A
/// byte that is no symbol counts as digit 0. Six symbols are the most that
/// an `i32` holds.
pub fn dec_part(key_part: &[u8]) -> (value: i32)
    requires
        key_part@.len() <= 6,
    ensures
        value == digits_value(key_part@),
        0 <= value < capacity(key_part@.len()),
{
    let n = key_part.len();
    let mut result: i32 = 0;
    let mut i: usize = 0;
    proof {
        lemma_pow0(34);
    }
    while i < n
        invariant
            i <= n,
            n == key_part@.len(),
            n <= 6,
            result == digits_value(key_part@.take(i as int)),
            0 <= result < capacity(i as nat),
        decreases n - i,
    {
        let digit = index_of(key_part[i]);
        proof {
            let seen = key_part@.take(i as int);
            let next = key_part@.take(i + 1);
            assert(next.drop_last() =~= seen);
            assert(next.last() == key_part@[i as int]);
            lemma_capacity_step(i as nat);
            lemma_capacity_monotone((i + 1) as nat, 6);
            lemma_capacities();
        }
        result = result * KEYS_SIZE + digit;
        i += 1;
    }
    assert(key_part@.take(n as int) =~= key_part@);
    result
}

/// Fills `slice` with symbols drawn at random, each on its own.
pub fn gen_pair(slice: &mut [u8])
    ensures
        final(slice)@.len() == old(slice)@.len(),
        forall|i: int| 0 <= i < final(slice)@.len() ==> is_symbol(#[trigger] final(slice)@[i]),
{
    let n = slice.len();
    let mut i: usize = 0;
    while i < n
        invariant
            i <= n,
            slice@.len() == n,
            forall|j: int| 0 <= j < i ==> is_symbol(#[trigger] slice@[j]),
        decreases n - i,
    {
        let digit = random_in_range(0, KEYS_SIZE);
        slice[i] = symbol_at(digit as usize);
        i += 1;
    }
}

} // verus!

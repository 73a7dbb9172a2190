//! What holds of every key and every license, proved from the definitions.

use crate::alphabet::{is_alphanumeric, is_symbol, lemma_symbol_is_alphanumeric};
use crate::checksum::checksum_holds;
use crate::codec::{part, part_start, part_width, veiled};
use crate::date::lemma_unpack_packed;
use crate::edition::KeyEdition;
use crate::error::KeyError;
use crate::license::License;
use crate::symbols::{
    capacity, digits_value, encoded, lemma_capacities, lemma_decode_encoded_exact,
    lemma_digits_value_bound,
};
use crate::text::{grouped, keeps, rendering, sanitized, SEPARATOR};
use vstd::prelude::*;

verus! {

/// XOR of two numbers below a power of two stays below it.
proof fn lemma_xor_below(a: i32, b: i32, limit: i32)
    by (bit_vector)
    requires
        0 <= a < limit,
        0 <= b < limit,
        limit > 0,
        limit & ((limit - 1) as i32) == 0,
    ensures
        0 <= a ^ b < limit,
{
}

/// The bounds of the parts are powers of two.
proof fn lemma_powers_of_two()
    by (bit_vector)
    ensures
        0x100i32 & 0xFFi32 == 0,
        0x400i32 & 0x3FFi32 == 0,
        0x8000i32 & 0x7FFFi32 == 0,
        0x10000i32 & 0xFFFFi32 == 0,
        0x100000i32 & 0xFFFFFi32 == 0,
{
}

/// The low eight bits of a number are below 256.
proof fn lemma_low_bits(base: i32)
    by (bit_vector)
    ensures
        0 <= base & 0xFF < 0x100,
{
}

/// The 24-bit window lets a number below `2^24` through unchanged.
proof fn lemma_wide_window(base: i32)
    by (bit_vector)
    requires
        0 <= base < 0x1000000,
    ensures
        base & 0xFFFFFF == base,
{
}

/// Veiling twice with the same bits gives the value back.
proof fn lemma_unveil(bits: i32, value: i32, mask: i32)
    by (bit_vector)
    ensures
        bits ^ (bits ^ value ^ mask) ^ mask == value,
{
}

/// The 16-bit window lets a number below `2^16` through unchanged.
proof fn lemma_short_window(value: i32)
    by (bit_vector)
    requires
        0 <= value < 0x10000,
    ensures
        value & 0xFFFF == value,
{
}

/// A field veiled under a window of `base` stays below the power of two
/// `limit` that bounds the window's bits, the field and the mask.
proof fn lemma_veiled_below(base: i32, window: i32, value: i32, mask: i32, limit: i32)
    requires
        0 <= base & window < limit,
        0 <= value < limit,
        0 <= mask < limit,
        limit > 0,
        limit & ((limit - 1) as i32) == 0,
    ensures
        0 <= veiled(base, window, value, mask) < limit,
{
    lemma_xor_below(base & window, value, limit);
    lemma_xor_below((base & window) ^ value, mask, limit);
}

/// Input that holds letters and digits only is kept whole.
pub proof fn lemma_sanitized_keeps(input: Seq<u8>)
    requires
        forall|i: int| 0 <= i < input.len() ==> is_alphanumeric(#[trigger] input[i]),
    ensures
        sanitized(input) == input,
    decreases input.len(),
{
    if input.len() == 0 {
        input.lemma_filter_len(keeps());
        assert(sanitized(input) =~= input);
    } else {
        let init = input.drop_last();
        lemma_sanitized_keeps(init);
        init.lemma_filter_push(input.last(), keeps());
        assert(init.push(input.last()) =~= input);
    }
}

/// What is left of an input holds letters and digits only, and reading it
/// again changes nothing.
pub proof fn lemma_sanitized_twice(input: Seq<u8>)
    ensures
        forall|i: int|
            0 <= i < sanitized(input).len() ==> is_alphanumeric(#[trigger] sanitized(input)[i]),
        sanitized(sanitized(input)) == sanitized(input),
{
    assert forall|i: int| 0 <= i < sanitized(input).len() implies is_alphanumeric(
        #[trigger] sanitized(input)[i],
    ) by {
        input.lemma_filter_pred(keeps(), i);
    }
    lemma_sanitized_keeps(sanitized(input));
}

/// A byte that is no letter or digit, put in anywhere, leaves no trace in
/// what is read.
pub proof fn lemma_sanitized_insert(input: Seq<u8>, at: int, filler: u8)
    requires
        0 <= at <= input.len(),
        !is_alphanumeric(filler),
    ensures
        sanitized(input.insert(at, filler)) == sanitized(input),
{
    let head = input.subrange(0, at);
    let tail = input.subrange(at, input.len() as int);
    let one = seq![filler];
    assert(input.insert(at, filler) =~= head + one + tail);
    assert(input =~= head + tail);
    Seq::filter_distributes_over_add(head + one, tail, keeps());
    Seq::filter_distributes_over_add(head, one, keeps());
    Seq::filter_distributes_over_add(head, tail, keeps());
    Seq::<u8>::empty().lemma_filter_push(filler, keeps());
    Seq::<u8>::empty().lemma_filter_len(keeps());
    assert(Seq::<u8>::empty().push(filler) =~= one);
    assert(one.filter(keeps()) =~= Seq::<u8>::empty());
    assert(head.filter(keeps()) + one.filter(keeps()) =~= head.filter(keeps()));
}

/// Whether `filled` is `key` with bytes that are no letters or digits put in
/// between, before or after its bytes.
pub open spec fn is_filled(key: Seq<u8>, filled: Seq<u8>) -> bool
    decreases filled.len(),
{
    if filled.len() == 0 {
        key.len() == 0
    } else {
        ||| key.len() > 0 && key.last() == filled.last() && is_filled(
            key.drop_last(),
            filled.drop_last(),
        )
        ||| !is_alphanumeric(filled.last()) && is_filled(key, filled.drop_last())
    }
}

/// Filler leaves no trace in what is read of an input.
pub proof fn lemma_sanitized_filled(key: Seq<u8>, filled: Seq<u8>)
    requires
        is_filled(key, filled),
    ensures
        sanitized(filled) == sanitized(key),
    decreases filled.len(),
{
    if filled.len() == 0 {
        assert(key =~= filled);
    } else {
        let init = filled.drop_last();
        init.lemma_filter_push(filled.last(), keeps());
        assert(init.push(filled.last()) =~= filled);
        if key.len() > 0 && key.last() == filled.last() && is_filled(key.drop_last(), init) {
            lemma_sanitized_filled(key.drop_last(), init);
            key.drop_last().lemma_filter_push(key.last(), keeps());
            assert(key.drop_last().push(key.last()) =~= key);
        } else {
            lemma_sanitized_filled(key, init);
        }
    }
}

/// A key with filler between its symbols is read as the key without it.
pub proof fn lemma_parsed_filled(key: Seq<u8>, filled: Seq<u8>)
    requires
        is_filled(key, filled),
    ensures
        License::parsed(filled) == License::parsed(key),
{
    lemma_sanitized_filled(key, filled);
}

/// Reading a key goes by the letters and digits of the input alone: two
/// inputs that agree in them are read alike.
pub proof fn lemma_parsed_by_symbols(input: Seq<u8>, other: Seq<u8>)
    requires
        sanitized(input) == sanitized(other),
    ensures
        License::parsed(input) == License::parsed(other),
{
}

/// Filler between the symbols of a key does not change how it is read.
pub proof fn lemma_parsed_ignores_filler(input: Seq<u8>, at: int, filler: u8)
    requires
        0 <= at <= input.len(),
        !is_alphanumeric(filler),
    ensures
        License::parsed(input.insert(at, filler)) == License::parsed(input),
{
    lemma_sanitized_insert(input, at, filler);
}

/// An input that does not hold 25 letters and digits is refused for its
/// length, and the error tells how many it holds.
pub proof fn lemma_length_error(input: Seq<u8>)
    requires
        sanitized(input).len() != 25,
    ensures
        License::parsed(input) == Err::<License, KeyError>(
            KeyError::InvalidLength { expected: 25, found: sanitized(input).len() as usize },
        ),
{
}

/// A key in groups of five is 29 bytes long, has hyphens at 5, 11, 17 and
/// 23 and the symbols of the key, in their order, everywhere else.
pub proof fn lemma_grouped_layout(key: Seq<u8>)
    requires
        key.len() == 25,
    ensures
        grouped(key).len() == 29,
        forall|i: int| 0 <= i < 29 && i % 6 == 5 ==> grouped(key)[i] == SEPARATOR,
        forall|i: int| 0 <= i < 29 && i % 6 != 5 ==> grouped(key)[i] == key[i - i / 6],
        rendering(key, true).len() == 29,
        rendering(key, false).len() == 25,
        forall|i: int| 0 <= i < 29 && i % 6 == 5 ==> rendering(key, true)[i] == '-',
{
    assert forall|i: int| 0 <= i < 29 && i % 6 == 5 implies rendering(key, true)[i] == '-' by {
        assert(grouped(key)[i] == SEPARATOR);
        assert(0x2Du8 as char == '-');
    }
}

/// A key in groups of five is read as the key itself.
pub proof fn lemma_grouped_parsed(key: Seq<u8>)
    requires
        key.len() == 25,
    ensures
        sanitized(grouped(key)) == sanitized(key),
        License::parsed(grouped(key)) == License::parsed(key),
{
    let k1 = key.insert(5, SEPARATOR);
    let k2 = k1.insert(11, SEPARATOR);
    let k3 = k2.insert(17, SEPARATOR);
    let k4 = k3.insert(23, SEPARATOR);
    lemma_sanitized_insert(key, 5, SEPARATOR);
    lemma_sanitized_insert(k1, 11, SEPARATOR);
    lemma_sanitized_insert(k2, 17, SEPARATOR);
    lemma_sanitized_insert(k3, 23, SEPARATOR);
    assert(k4 =~= grouped(key));
}

/// A key of a license has 25 symbols, all of the alphabet.
pub proof fn lemma_key_of_alphabet(license: License, key: Seq<u8>)
    requires
        license.has_key(key),
    ensures
        key.len() == 25,
        forall|i: int| 0 <= i < 25 ==> is_symbol(#[trigger] key[i]),
        forall|i: int| 0 <= i < 25 ==> is_alphanumeric(#[trigger] key[i]),
        sanitized(key) == key,
{
    license.lemma_key_symbols(key.subrange(22, 24));
    assert forall|i: int| 0 <= i < 25 implies is_alphanumeric(#[trigger] key[i]) by {
        lemma_symbol_is_alphanumeric(key[i]);
    }
    lemma_sanitized_keeps(key);
}

/// A key of a license carries the check symbol of its first 24 symbols.
pub proof fn lemma_key_checksum(license: License, key: Seq<u8>)
    requires
        license.has_key(key),
    ensures
        checksum_holds(key),
{
    let seed = key.subrange(22, 24);
    license.lemma_key_body(seed);
    assert(key.subrange(0, 24) =~= license.key_body(seed));
}

/// The last symbol of a key is checked: with any other byte in its place
/// the checksum no longer holds.
pub proof fn lemma_last_symbol_checked(key: Seq<u8>, other: u8)
    requires
        checksum_holds(key),
        other != key[24],
    ensures
        !checksum_holds(key.update(24, other)),
{
    assert(key.update(24, other).subrange(0, 24) =~= key.subrange(0, 24));
}

/// A part that holds a field veiled by the low byte of `base`, with room
/// for it, gives the field back when the veil is taken off.
proof fn lemma_low_part_reads_back(
    key: Seq<u8>,
    start: int,
    width: nat,
    base: i32,
    value: i32,
    mask: i32,
    limit: i32,
)
    requires
        key.subrange(start, start + width) == encoded(
            veiled(base, 0xFF, value, mask) as int,
            width,
        ),
        0 <= value < limit,
        0 <= mask < limit,
        0x100 <= limit <= 0x10000,
        limit & ((limit - 1) as i32) == 0,
        limit <= capacity(width),
    ensures
        (base & 0xFF) ^ part(key, start, width as int) ^ mask == value,
        (base & 0xFF) ^ (part(key, start, width as int) & 0xFFFF) ^ mask == value,
{
    let v = veiled(base, 0xFF, value, mask);
    lemma_low_bits(base);
    lemma_veiled_below(base, 0xFF, value, mask, limit);
    lemma_decode_encoded_exact(v as int, width);
    lemma_short_window(v);
    lemma_unveil(base & 0xFF, value, mask);
}

/// A part that holds a field veiled by a `base` below `2^24`, with room for
/// it, gives the field back when the veil is taken off.
proof fn lemma_wide_part_reads_back(
    key: Seq<u8>,
    start: int,
    width: nat,
    base: i32,
    value: i32,
    mask: i32,
    limit: i32,
)
    requires
        key.subrange(start, start + width) == encoded(
            veiled(base, 0xFFFFFF, value, mask) as int,
            width,
        ),
        0 <= base < limit,
        0 <= value < limit,
        0 <= mask < limit,
        0 < limit <= 0x1000000,
        limit & ((limit - 1) as i32) == 0,
        limit <= capacity(width),
    ensures
        base ^ part(key, start, width as int) ^ mask == value,
{
    let v = veiled(base, 0xFFFFFF, value, mask);
    lemma_wide_window(base);
    lemma_veiled_below(base, 0xFFFFFF, value, mask, limit);
    lemma_decode_encoded_exact(v as int, width);
    lemma_unveil(base, value, mask);
}

/// What the parts of a key give once their veils are taken off: the fields
/// of the license that the key was made for.
proof fn lemma_parts_read_back(license: License, seed: Seq<u8>)
    requires
        seed.len() == 2,
        license.fits_key(),
    ensures
        ({
            let key = license.key_for(seed);
            let base = part(key, 22, 2);
            let low = base & 0xFF;
            &&& base == digits_value(seed)
            &&& low ^ part(key, 0, 2) ^ 0xBF == license.edition.code() + 1
            &&& low ^ part(key, 2, 2) ^ 0xED == license.salt1
            &&& low ^ (part(key, 4, 2) & 0xFFFF) ^ 0x77 == license.salt2
            &&& low ^ (part(key, 6, 2) & 0xFFFF) ^ 0xDF == license.salt3
            &&& base ^ part(key, 8, 4) ^ 0x4755 == license.seats
            &&& base ^ part(key, 12, 4) ^ 0x7CC1 == license.purchase_date.packed()
            &&& low ^ part(key, 19, 3) ^ 0x935 == license.maintenance_expiry
            &&& license.expiry_days() == 0 ==> low ^ part(key, 16, 3) ^ 0x3FD == 0
        }),
{
    let key = license.key_for(seed);
    let body = license.key_body(seed);
    let base = digits_value(seed) as i32;
    license.lemma_key_body(seed);
    lemma_capacities();
    lemma_powers_of_two();
    lemma_digits_value_bound(seed);
    assert(key.subrange(22, 24) =~= seed);
    assert forall|index: int| 0 <= index < 8 implies key.subrange(
        part_start(index),
        part_start(index) + part_width(index),
    ) == #[trigger] license.part_symbols(base, index) by {
        assert(key.subrange(part_start(index), part_start(index) + part_width(index))
            =~= body.subrange(part_start(index), part_start(index) + part_width(index)));
    }
    let code = (license.edition.code() + 1) as i32;
    let packed = license.purchase_date.packed() as i32;
    assert(key.subrange(0, 2) == license.part_symbols(base, 0));
    lemma_low_part_reads_back(key, 0, 2, base, code, 0xBF, 0x100);
    assert(key.subrange(2, 4) == license.part_symbols(base, 1));
    lemma_low_part_reads_back(key, 2, 2, base, license.salt1, 0xED, 0x400);
    assert(key.subrange(4, 6) == license.part_symbols(base, 2));
    lemma_low_part_reads_back(key, 4, 2, base, license.salt2, 0x77, 0x400);
    assert(key.subrange(6, 8) == license.part_symbols(base, 3));
    lemma_low_part_reads_back(key, 6, 2, base, license.salt3, 0xDF, 0x400);
    assert(key.subrange(8, 12) == license.part_symbols(base, 4));
    lemma_wide_part_reads_back(key, 8, 4, base, license.seats, 0x4755, 0x100000);
    assert(key.subrange(12, 16) == license.part_symbols(base, 5));
    lemma_wide_part_reads_back(key, 12, 4, base, packed, 0x7CC1, 0x10000);
    assert(key.subrange(16, 19) == license.part_symbols(base, 6));
    if license.expiry_days() == 0 {
        lemma_low_part_reads_back(key, 16, 3, base, 0, 0x3FD, 0x400);
    }
    assert(key.subrange(19, 22) == license.part_symbols(base, 7));
    lemma_low_part_reads_back(key, 19, 3, base, license.maintenance_days(), 0x935, 0x8000);
}

/// What the 25 symbols of a key hold, the checksum apart: the license
/// that the key was made for, but for its duration.
proof fn lemma_decoded_generated(license: License, seed: Seq<u8>)
    requires
        seed.len() == 2,
        license.fits_key(),
    ensures
        License::decoded(license.key_for(seed)) matches Ok(read) && {
            &&& read.edition == license.edition
            &&& read.seats == license.seats
            &&& read.purchase_date == license.purchase_date
            &&& read.maintenance_expiry == license.maintenance_expiry
            &&& read.salt1 == license.salt1
            &&& read.salt2 == license.salt2
            &&& read.salt3 == license.salt3
            &&& license.expiry_days() == 0 ==> read.expiry is None
        },
{
    lemma_parts_read_back(license, seed);
    lemma_unpack_packed(license.purchase_date);
    assert(KeyEdition::of_code(license.edition.code()) == Some(license.edition));
}

/// A key of a license whose fields fit is read without error, and the
/// license read has the edition, the seats, the purchase date, the days of
/// maintenance and the three salts of the license that the key was made
/// for. It has no end where the key held none. So a license that has no end
/// is read back as it was, field by field.
pub proof fn lemma_parse_generated(license: License, key: Seq<u8>)
    requires
        license.has_key(key),
        license.fits_key(),
    ensures
        License::parsed(key) matches Ok(read) && {
            &&& read.edition == license.edition
            &&& read.seats == license.seats
            &&& read.purchase_date == license.purchase_date
            &&& read.maintenance_expiry == license.maintenance_expiry
            &&& read.salt1 == license.salt1
            &&& read.salt2 == license.salt2
            &&& read.salt3 == license.salt3
            &&& license.expiry_days() == 0 ==> read.expiry is None
        },
        license.expiry is None ==> License::parsed(key) == Ok::<License, KeyError>(license),
{
    lemma_key_of_alphabet(license, key);
    lemma_key_checksum(license, key);
    lemma_decoded_generated(license, key.subrange(22, 24));
}

} // verus!

//! The layout of a key, and the two ways across it: from a license to its
//! key and from a key to its license.
//!
//! A key is 25 symbols. Symbols 22 and 23 are a seed drawn at random, and
//! `base` is the number they denote. Eight parts before the seed hold one
//! field each, veiled by the low bits of `base` and by a constant of the
//! part. Symbol 24 checks the 24 before it.
//!
//! | symbols | field                    | window of `base` | mask     |
//! |---------|--------------------------|------------------|----------|
//! | 0..2    | edition code + 1         | `0xFF`           | `0xBF`   |
//! | 2..4    | salt1                    | `0xFF`           | `0xED`   |
//! | 4..6    | salt2                    | `0xFF`           | `0x77`   |
//! | 6..8    | salt3                    | `0xFF`           | `0xDF`   |
//! | 8..12   | seats                    | `0xFFFFFF`       | `0x4755` |
//! | 12..16  | packed purchase date     | `0xFFFFFF`       | `0x7CC1` |
//! | 16..19  | days of license, 0: none | `0xFF`           | `0x3FD`  |
//! | 19..22  | days of maintenance      | `0xFF`           | `0x935`  |
//!
//! The two ways do not agree on the license's duration. A key is written
//! with the count of days in that part. It is read as a packed date, and the
//! license gets the days from its purchase to that date. Only a license
//! without an end comes back as it was.

use crate::alphabet::{is_symbol, lemma_symbol_is_alphanumeric};
use crate::checksum::{
    check_symbol, checksum, checksum_holds, get_check_symbol, get_checksum,
    lemma_check_symbol_in_alphabet, verify_checksum,
};
use crate::date::{calendar_days_between, Date};
use crate::edition::KeyEdition;
use crate::error::KeyError;
use crate::license::{calendar_days, License};
use crate::symbols::{dec_part, digits_value, enc_part, encoded, gen_pair, lemma_encoded_symbols};
use crate::text::{format_key, rendering, sanitize, sanitized};
use vstd::prelude::*;
use vstd::slice::slice_subrange;

verus! {

/// A field as a key holds it: the bits of `base` that `window` lets
/// through, XOR the field's value, XOR the mask of its part.
pub open spec fn veiled(base: i32, window: i32, value: i32, mask: i32) -> i32 {
    (base & window) ^ value ^ mask
}

/// The number that the `width` symbols of `key` from `start` on denote.
pub open spec fn part(key: Seq<u8>, start: int, width: int) -> i32 {
    digits_value(key.subrange(start, start + width)) as i32
}

/// The number of symbols of part `index`, for the eight parts 0 to 7.
pub open spec fn part_width(index: int) -> nat {
    if index < 4 {
        2
    } else if index < 6 {
        4
    } else {
        3
    }
}

/// The place of the first symbol of part `index` in a key.
pub open spec fn part_start(index: int) -> int {
    if index < 4 {
        2 * index
    } else if index < 6 {
        4 * index - 8
    } else {
        3 * index - 2
    }
}

/// The duration of a license read from a key. `raw` is the number in the
/// part, `days` the days from the purchase to the date that `raw` packs.
/// Zero stands for no end; a date that the calendar cannot count to gives a
/// license of zero days.
pub open spec fn expiry_of(raw: i32, days: Option<i64>) -> Option<i64> {
    if raw == 0 {
        None
    } else {
        match days {
            Some(count) => Some(count),
            None => Some(0),
        }
    }
}

/// A veiled field is no negative number where the field itself is none.
pub proof fn lemma_veiled_sign(base: i32, window: i32, value: i32, mask: i32)
    by (bit_vector)
    requires
        window >= 0,
        value >= 0,
        mask >= 0,
    ensures
        veiled(base, window, value, mask) >= 0,
{
}

impl License {
    /// The days of the license as a key holds them: the count cut to 32
    /// bits, 0 for a license without an end.
    pub open spec fn expiry_days(self) -> i32 {
        match self.expiry {
            Some(days) => days as i32,
            None => 0,
        }
    }

    /// The days of maintenance as a key holds them: the count cut to 32 bits.
    pub open spec fn maintenance_days(self) -> i32 {
        self.maintenance_expiry as i32
    }

    /// Whether a key can be written for the license: no field that goes into
    /// a part is negative.
    pub open spec fn encodable(self) -> bool {
        &&& self.seats >= 0
        &&& self.salt1 >= 0
        &&& self.salt2 >= 0
        &&& self.salt3 >= 0
        &&& self.expiry_days() >= 0
        &&& self.maintenance_days() >= 0
    }

    /// Whether every field that a key is read back for has room in its
    /// part whatever the seed: the salts in 10 bits, the seats in 20, the
    /// days of maintenance in 15, and the purchase date one that survives
    /// packing.
    pub open spec fn fits_key(self) -> bool {
        &&& 0 <= self.salt1 < 0x400
        &&& 0 <= self.salt2 < 0x400
        &&& 0 <= self.salt3 < 0x400
        &&& 0 <= self.seats < 0x100000
        &&& 0 <= self.maintenance_expiry < 0x8000
        &&& self.purchase_date.survives_packing()
    }

    /// Field `index` of the license as its part holds it under `base`, for
    /// the eight parts 0 to 7 in the order of the key.
    pub open spec fn veiled_field(self, base: i32, index: int) -> i32 {
        if index == 0 {
            veiled(base, 0xFF, (self.edition.code() + 1) as i32, 0xBF)
        } else if index == 1 {
            veiled(base, 0xFF, self.salt1, 0xED)
        } else if index == 2 {
            veiled(base, 0xFF, self.salt2, 0x77)
        } else if index == 3 {
            veiled(base, 0xFF, self.salt3, 0xDF)
        } else if index == 4 {
            veiled(base, 0xFFFFFF, self.seats, 0x4755)
        } else if index == 5 {
            veiled(base, 0xFFFFFF, self.purchase_date.packed() as i32, 0x7CC1)
        } else if index == 6 {
            veiled(base, 0xFF, self.expiry_days(), 0x3FD)
        } else {
            veiled(base, 0xFF, self.maintenance_days(), 0x935)
        }
    }

    /// The symbols of part `index` of the license's key under `base`.
    pub open spec fn part_symbols(self, base: i32, index: int) -> Seq<u8> {
        encoded(self.veiled_field(base, index) as int, part_width(index))
    }

    /// The first 24 symbols of the key that the license gets with the seed
    /// `seed`: the eight parts and the seed itself.
    pub open spec fn key_body(self, seed: Seq<u8>) -> Seq<u8> {
        let base = digits_value(seed) as i32;
        self.part_symbols(base, 0) + self.part_symbols(base, 1) + self.part_symbols(base, 2)
            + self.part_symbols(base, 3) + self.part_symbols(base, 4) + self.part_symbols(base, 5)
            + self.part_symbols(base, 6) + self.part_symbols(base, 7) + seed
    }

    /// The key that the license gets with the seed `seed`: the body and its
    /// check symbol.
    pub open spec fn key_for(self, seed: Seq<u8>) -> Seq<u8> {
        let body = self.key_body(seed);
        body.push(check_symbol(body))
    }

    /// Whether `key` is a key of the license: the one that it gets with the
    /// seed that `key` holds, which is made of symbols.
    pub open spec fn has_key(self, key: Seq<u8>) -> bool {
        &&& key.len() == 25
        &&& is_symbol(key[22])
        &&& is_symbol(key[23])
        &&& key == self.key_for(key.subrange(22, 24))
    }

    /// The license that the 25 symbols of `key` hold, the checksum apart.
    pub open spec fn decoded(key: Seq<u8>) -> Result<License, KeyError> {
        let base = part(key, 22, 2);
        let low = base & 0xFF;
        match KeyEdition::of_code((low ^ part(key, 0, 2) ^ 0xBF) - 1) {
            None => Err(KeyError::UnknownEdition),
            Some(edition) => {
                let purchase_date = Date::unpacked(base ^ part(key, 12, 4) ^ 0x7CC1);
                let raw_expiry = low ^ part(key, 16, 3) ^ 0x3FD;
                Ok(
                    License {
                        edition,
                        seats: base ^ part(key, 8, 4) ^ 0x4755,
                        purchase_date,
                        expiry: expiry_of(
                            raw_expiry,
                            calendar_days(purchase_date, Date::unpacked(raw_expiry)),
                        ),
                        maintenance_expiry: (low ^ part(key, 19, 3) ^ 0x935) as i64,
                        salt1: low ^ part(key, 2, 2) ^ 0xED,
                        salt2: low ^ (part(key, 4, 2) & 0xFFFF) ^ 0x77,
                        salt3: low ^ (part(key, 6, 2) & 0xFFFF) ^ 0xDF,
                    },
                )
            },
        }
    }

    /// What reading `input` as a key gives. Only the ASCII letters and
    /// digits of the input count. There must be 25 of them, the last one the
    /// check symbol of the others, and the edition must be a known one.
    pub open spec fn parsed(input: Seq<u8>) -> Result<License, KeyError> {
        let key = sanitized(input);
        if key.len() != 25 {
            Err(KeyError::InvalidLength { expected: 25, found: key.len() as usize })
        } else if !checksum_holds(key) {
            Err(
                KeyError::InvalidChecksum {
                    expected: checksum(key.subrange(0, 24)) as u16,
                    found: key[24] as u16,
                },
            )
        } else {
            License::decoded(key)
        }
    }

    /// Whether the fields that go into a key are all non-negative, so that a
    /// key can be written.
    pub fn is_encodable(&self) -> (ok: bool)
        ensures
            ok == self.encodable(),
    {
        let expiry: i32 = match self.expiry {
            Some(days) => #[verifier::truncate] (days as i32),
            None => 0,
        };
        let maintenance: i32 = #[verifier::truncate] (self.maintenance_expiry as i32);
        self.seats >= 0 && self.salt1 >= 0 && self.salt2 >= 0 && self.salt3 >= 0 && expiry >= 0
            && maintenance >= 0
    }

    /// The key of the license for the seed `seed`.
    pub fn generate_with_seed(&self, seed: [u8; 2]) -> (key: [u8; 25])
        requires
            self.encodable(),
        ensures
            key@ == self.key_for(seed@),
    {
        let purchase_date = self.purchase_date.enc();
        let expiry: i32 = match self.expiry {
            Some(days) => #[verifier::truncate] (days as i32),
            None => 0,
        };
        let maintenance: i32 = #[verifier::truncate] (self.maintenance_expiry as i32);
        let mut key: [u8; 25] = [0; 25];
        key[22] = seed[0];
        key[23] = seed[1];
        let base_val = dec_part(slice_subrange(key.as_slice(), 22, 24));
        assert(key@.subrange(22, 24) =~= seed@);
        put_part(&mut key, 0, 2, base_val, 0xFF, self.edition.to_code() + 1, 0xBF);
        put_part(&mut key, 2, 2, base_val, 0xFF, self.salt1, 0xED);
        put_part(&mut key, 4, 2, base_val, 0xFF, self.salt2, 0x77);
        put_part(&mut key, 6, 2, base_val, 0xFF, self.salt3, 0xDF);
        put_part(&mut key, 8, 4, base_val, 0xFFFFFF, self.seats, 0x4755);
        put_part(&mut key, 12, 4, base_val, 0xFFFFFF, purchase_date, 0x7CC1);
        put_part(&mut key, 16, 3, base_val, 0xFF, expiry, 0x3FD);
        put_part(&mut key, 19, 3, base_val, 0xFF, maintenance, 0x935);
        proof {
            self.lemma_key_body(seed@);
            assert(key@.subrange(0, 24) =~= self.key_body(seed@));
        }
        key[24] = get_check_symbol(slice_subrange(key.as_slice(), 0, 24));
        assert(key@ =~= self.key_for(seed@));
        key
    }

    /// A key of the license, with a seed of two symbols drawn at random.
    pub fn generate(&self) -> (key: [u8; 25])
        requires
            self.encodable(),
        ensures
            self.has_key(key@),
            forall|i: int| 0 <= i < 25 ==> is_symbol(#[trigger] key@[i]),
            checksum_holds(key@),
    {
        let mut seed: [u8; 2] = [0; 2];
        gen_pair(&mut seed);
        let key = self.generate_with_seed(seed);
        proof {
            self.lemma_key_holds_seed(seed@);
            self.lemma_key_symbols(seed@);
            self.lemma_key_body(seed@);
            assert(key@.subrange(0, 24) =~= self.key_body(seed@));
        }
        key
    }

    /// A key of the license as text, in groups of five with hyphens between
    /// them where `separators` is set.
    pub fn generate_string(&self, separators: bool) -> (text: String)
        requires
            self.encodable(),
        ensures
            exists|key: Seq<u8>| #[trigger] self.has_key(key) && text@ == rendering(key, separators),
            text@.len() == if separators { 29int } else { 25int },
    {
        let key = self.generate();
        proof {
            assert forall|i: int| 0 <= i < 25 implies key@[i] < 128 by {
                lemma_symbol_is_alphanumeric(key@[i]);
            }
        }
        format_key(&key, separators)
    }

    /// Reads a key. Whatever is no ASCII letter or digit is passed over.
    pub fn from_key(key: &[u8]) -> (license: Result<License, KeyError>)
        ensures
            license == License::parsed(key@),
    {
        let key = sanitize(key);
        if key.len() != 25 {
            return Err(KeyError::InvalidLength { expected: 25, found: key.len() });
        }
        let symbols = key.as_slice();
        if !verify_checksum(symbols) {
            return Err(
                KeyError::InvalidChecksum {
                    expected: get_checksum(slice_subrange(symbols, 0, 24)),
                    found: symbols[24] as u16,
                },
            );
        }
        let edition_part = dec_part(slice_subrange(symbols, 0, 2));
        let salt1_part = dec_part(slice_subrange(symbols, 2, 4));
        let salt2_part = dec_part(slice_subrange(symbols, 4, 6));
        let salt3_part = dec_part(slice_subrange(symbols, 6, 8));
        let seats_part = dec_part(slice_subrange(symbols, 8, 12));
        let purchase_part = dec_part(slice_subrange(symbols, 12, 16));
        let expiry_part = dec_part(slice_subrange(symbols, 16, 19));
        let maintenance_part = dec_part(slice_subrange(symbols, 19, 22));
        let base = dec_part(slice_subrange(symbols, 22, 24));
        let low = base & 0xFF;
        proof {
            lemma_veiled_sign(base, 0xFF, edition_part, 0xBF);
        }
        let edition = match KeyEdition::try_from((low ^ edition_part ^ 0xBF) - 1) {
            Ok(edition) => edition,
            Err(e) => {
                return Err(e);
            },
        };
        let purchase_date = Date::dec(base ^ purchase_part ^ 0x7CC1);
        let raw_expiry = low ^ expiry_part ^ 0x3FD;
        let expiry = if raw_expiry == 0 {
            None
        } else {
            decoded_expiry(
                raw_expiry,
                calendar_days_between(&purchase_date, &Date::dec(raw_expiry)),
            )
        };
        Ok(
            License {
                edition,
                seats: base ^ seats_part ^ 0x4755,
                purchase_date,
                expiry,
                maintenance_expiry: (low ^ maintenance_part ^ 0x935) as i64,
                salt1: low ^ salt1_part ^ 0xED,
                salt2: low ^ (salt2_part & 0xFFFF) ^ 0x77,
                salt3: low ^ (salt3_part & 0xFFFF) ^ 0xDF,
            },
        )
    }

    /// Each part of a key has the symbols of its width, all of the alphabet.
    pub proof fn lemma_part_symbols(self, base: i32, index: int)
        ensures
            self.part_symbols(base, index).len() == part_width(index),
            forall|i: int|
                0 <= i < part_width(index) ==> is_symbol(
                    #[trigger] self.part_symbols(base, index)[i],
                ),
    {
        lemma_encoded_symbols(self.veiled_field(base, index) as int, part_width(index));
    }

    /// The body of a key has 22 symbols of the alphabet before its seed, and
    /// each part stands at its place.
    pub proof fn lemma_key_body(self, seed: Seq<u8>)
        ensures
            self.key_body(seed).len() == 22 + seed.len(),
            forall|i: int| 0 <= i < 22 ==> is_symbol(#[trigger] self.key_body(seed)[i]),
            forall|index: int|
                0 <= index < 8 ==> #[trigger] self.part_symbols(digits_value(seed) as i32, index)
                    == self.key_body(seed).subrange(
                    part_start(index),
                    part_start(index) + part_width(index),
                ),
            self.key_body(seed).subrange(22, 22 + seed.len() as int) == seed,
    {
        let base = digits_value(seed) as i32;
        let body = self.key_body(seed);
        self.lemma_part_symbols(base, 0);
        self.lemma_part_symbols(base, 1);
        self.lemma_part_symbols(base, 2);
        self.lemma_part_symbols(base, 3);
        self.lemma_part_symbols(base, 4);
        self.lemma_part_symbols(base, 5);
        self.lemma_part_symbols(base, 6);
        self.lemma_part_symbols(base, 7);
        assert(body.subrange(0, 2) =~= self.part_symbols(base, 0));
        assert(body.subrange(2, 4) =~= self.part_symbols(base, 1));
        assert(body.subrange(4, 6) =~= self.part_symbols(base, 2));
        assert(body.subrange(6, 8) =~= self.part_symbols(base, 3));
        assert(body.subrange(8, 12) =~= self.part_symbols(base, 4));
        assert(body.subrange(12, 16) =~= self.part_symbols(base, 5));
        assert(body.subrange(16, 19) =~= self.part_symbols(base, 6));
        assert(body.subrange(19, 22) =~= self.part_symbols(base, 7));
        assert(body.subrange(22, 22 + seed.len() as int) =~= seed);
    }

    /// Every symbol of a key is of the alphabet, where those of the seed are.
    pub proof fn lemma_key_symbols(self, seed: Seq<u8>)
        requires
            seed.len() == 2,
            is_symbol(seed[0]),
            is_symbol(seed[1]),
        ensures
            self.key_for(seed).len() == 25,
            forall|i: int| 0 <= i < 25 ==> is_symbol(#[trigger] self.key_for(seed)[i]),
    {
        self.lemma_key_body(seed);
        lemma_check_symbol_in_alphabet(self.key_body(seed));
        let body = self.key_body(seed);
        assert forall|i: int| 0 <= i < 25 implies is_symbol(#[trigger] self.key_for(seed)[i]) by {
            if 22 <= i < 24 {
                assert(body.subrange(22, 24)[i - 22] == body[i]);
            }
        }
    }

    /// A key holds the seed that it was made with, so it is a key of its
    /// license.
    pub proof fn lemma_key_holds_seed(self, seed: Seq<u8>)
        requires
            seed.len() == 2,
            is_symbol(seed[0]),
            is_symbol(seed[1]),
        ensures
            self.key_for(seed).subrange(22, 24) == seed,
            self.has_key(self.key_for(seed)),
    {
        self.lemma_key_symbols(seed);
        self.lemma_key_body(seed);
        assert(self.key_for(seed).subrange(22, 24) =~= self.key_body(seed).subrange(22, 24));
    }
}

/// The duration of a license read from a key: `raw` is the number in the
/// part, `days` the days from the purchase to the date that `raw` packs.
pub fn decoded_expiry(raw: i32, days: Option<i64>) -> (expiry: Option<i64>)
    ensures
        expiry == expiry_of(raw, days),
{
    if raw == 0 {
        None
    } else {
        match days {
            Some(count) => Some(count),
            None => Some(0),
        }
    }
}

/// Writes one part into a key: `value` veiled by `base` and `mask`, in the
/// `width` symbols from `start` on.
fn put_part(
    key: &mut [u8],
    start: usize,
    width: usize,
    base: i32,
    window: i32,
    value: i32,
    mask: i32,
)
    requires
        window >= 0,
        value >= 0,
        mask >= 0,
        start + width <= old(key)@.len(),
    ensures
        final(key)@.len() == old(key)@.len(),
        final(key)@.subrange(start as int, start + width) == encoded(
            veiled(base, window, value, mask) as int,
            width as nat,
        ),
        forall|i: int|
            0 <= i < start || start + width <= i < old(key)@.len() ==> final(key)@[i] == old(
                key,
            )@[i],
{
    proof {
        lemma_veiled_sign(base, window, value, mask);
        lemma_encoded_symbols(veiled(base, window, value, mask) as int, width as nat);
    }
    let (_, tail) = key.split_at_mut(start);
    let (part, _) = tail.split_at_mut(width);
    enc_part((base & window) ^ value ^ mask, part);
}

} // verus!

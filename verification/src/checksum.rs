//! The 16-bit checksum of a key and the one symbol of it that a key carries.

use crate::symbols::{enc_part, encoded, lemma_encoded_symbols};
use crate::alphabet::is_symbol;
use vstd::prelude::*;
use vstd::slice::slice_subrange;

verus! {

/// One step of the shift register: shift left by one bit, and fold the
/// polynomial `0x8201` in where bit 15 was set.
pub open spec fn crc_shift(register: u32) -> u32 {
    if register & 0x8000 == 0 {
        register << 1
    } else {
        (register << 1) ^ 0x8201
    }
}

/// `times` steps of the shift register.
pub open spec fn crc_shifts(register: u32, times: nat) -> u32
    decreases times,
{
    if times == 0 {
        register
    } else {
        crc_shift(crc_shifts(register, (times - 1) as nat))
    }
}

/// The register after one more byte: the byte is folded in above bit 7, then
/// the register takes eight steps.
pub open spec fn crc_absorb(register: u32, byte: u8) -> u32 {
    crc_shifts(register ^ ((byte as u32) << 8), 8)
}

/// The register after all of `bytes`, starting from zero.
pub open spec fn crc_register(bytes: Seq<u8>) -> u32
    decreases bytes.len(),
{
    if bytes.len() == 0 {
        0
    } else {
        crc_absorb(crc_register(bytes.drop_last()), bytes.last())
    }
}

/// The checksum of `bytes`: the low 16 bits of the register, reduced modulo
/// `0x9987`.
pub open spec fn checksum(bytes: Seq<u8>) -> int {
    ((crc_register(bytes) & 0xFFFF) % 0x9987) as int
}

/// The symbol that stands for the checksum of `body` in a key: the middle
/// one of the three symbols that encode the checksum.
pub open spec fn check_symbol(body: Seq<u8>) -> u8 {
    encoded(checksum(body), 3)[1]
}

/// Whether `key` has 25 bytes, the last of them the check symbol of the 24
/// before it.
pub open spec fn checksum_holds(key: Seq<u8>) -> bool {
    key.len() == 25 && key[24] == check_symbol(key.subrange(0, 24))
}

/// The check symbol is a symbol of the alphabet.
pub proof fn lemma_check_symbol_in_alphabet(body: Seq<u8>)
    ensures
        is_symbol(check_symbol(body)),
{
    lemma_encoded_symbols(checksum(body), 3);
}

/// The checksum of the raw bytes of `key_part`.
pub fn get_checksum(key_part: &[u8]) -> (sum: u16)
    ensures
        sum == checksum(key_part@),
        sum < 0x9987,
{
    let n = key_part.len();
    let mut register: u32 = 0;
    let mut i: usize = 0;
    while i < n
        invariant
            i <= n,
            n == key_part@.len(),
            register == crc_register(key_part@.take(i as int)),
        decreases n - i,
    {
        let ghost before = register;
        register = register ^ ((key_part[i] as u32) << 8);
        let ghost folded = register;
        let mut step: u8 = 0;
        while step < 8
            invariant
                step <= 8,
                register == crc_shifts(folded, step as nat),
            decreases 8 - step,
        {
            if register & 0x8000 == 0 {
                register = register << 1;
            } else {
                register = (register << 1) ^ 0x8201;
            }
            step += 1;
        }
        proof {
            let next = key_part@.take(i + 1);
            assert(next.drop_last() =~= key_part@.take(i as int));
            assert(next.last() == key_part@[i as int]);
        }
        i += 1;
    }
    assert(key_part@.take(n as int) =~= key_part@);
    ((register & 0xFFFF) % 0x9987) as u16
}

/// The check symbol of the first 24 bytes of a key.
pub fn get_check_symbol(body: &[u8]) -> (symbol: u8)
    ensures
        symbol == check_symbol(body@),
{
    let mut enc_checksum: [u8; 3] = [0; 3];
    enc_part(get_checksum(body) as i32, &mut enc_checksum);
    enc_checksum[1]
}

/// Whether `key` has 25 bytes and carries the check symbol of its first 24.
pub fn verify_checksum(key: &[u8]) -> (ok: bool)
    ensures
        ok == checksum_holds(key@),
{
    key.len() == 25 && get_check_symbol(slice_subrange(key, 0, 24)) == key[24]
}

} // verus!

use aida64_keys_lib::alphabet::{index_of, symbol_at, KEYS_SIZE, KEY_CHARS};
use aida64_keys_lib::checksum::{get_check_symbol, get_checksum, verify_checksum};
use aida64_keys_lib::symbols::{dec_part, enc_part, gen_pair};
use aida64_keys_lib::text::{format_key, is_ascii_alphanumeric, sanitize};

#[test]
fn alphabet_is_the_fixed_one() {
    assert_eq!(&KEY_CHARS, b"DY14UF3RHWCXLQB6IKJT9N5AGS2PM8VZ7E");
    assert_eq!(KEYS_SIZE, 34);
    for digit in 0..34 {
        assert_eq!(symbol_at(digit), KEY_CHARS[digit]);
        assert_eq!(index_of(KEY_CHARS[digit]), digit as i32);
    }
}

#[test]
fn bytes_off_the_alphabet_are_digit_zero() {
    for c in 0..=255u8 {
        let expected = KEY_CHARS.iter().position(|s| *s == c).unwrap_or(0) as i32;
        assert_eq!(index_of(c), expected);
    }
    assert_eq!(index_of(b'O'), 0);
    assert_eq!(index_of(b'0'), 0);
    assert_eq!(index_of(b'd'), 0);
    assert_eq!(index_of(b'D'), 0);
    assert_eq!(index_of(b'E'), 33);
}

#[test]
fn enc_part_writes_digits() {
    let mut four = [0u8; 4];
    enc_part(12345, &mut four);
    assert_eq!(&four, b"DCA4");
    let mut three = [0u8; 3];
    enc_part(0, &mut three);
    assert_eq!(&three, b"DDD");
    enc_part(39302, &mut three);
    assert_eq!(&three, b"EE7");
    enc_part(34211, &mut three);
    assert_eq!(&three, b"89R");
    let mut one = [0u8; 1];
    enc_part(33, &mut one);
    assert_eq!(&one, b"E");
    let mut none: [u8; 0] = [];
    enc_part(77, &mut none);
}

#[test]
fn enc_part_drops_high_digits() {
    let mut four = [0u8; 4];
    enc_part(1336336 + 5, &mut four);
    assert_eq!(&four, b"DDDF");
    let mut one = [0u8; 1];
    enc_part(34 * 7 + 2, &mut one);
    assert_eq!(&one, b"1");
    let mut eight = [0u8; 8];
    enc_part(i32::MAX, &mut eight);
    assert_eq!(dec_part(&eight[2..]), i32::MAX % 1544804416);
    assert_eq!(&eight[..2], b"DY");
}

#[test]
fn dec_part_reads_digits() {
    assert_eq!(dec_part(b"E7"), 1154);
    assert_eq!(dec_part(b"DY14"), 1227);
    assert_eq!(dec_part(b"a!"), 0);
    assert_eq!(dec_part(b"EEEEEE"), 1544804415);
    assert_eq!(dec_part(b""), 0);
    assert_eq!(dec_part(b"DCA4"), 12345);
    assert_eq!(dec_part(b"Y?"), 34);
}

#[test]
fn dec_part_undoes_enc_part() {
    for value in [0, 1, 33, 34, 1155, 1156, 39303, 39304, 1336335, 49567, 0x7CC1] {
        let mut four = [0u8; 4];
        enc_part(value, &mut four);
        assert_eq!(dec_part(&four), value % 1336336);
        let mut two = [0u8; 2];
        enc_part(value, &mut two);
        assert_eq!(dec_part(&two), value % 1156);
    }
}

#[test]
fn gen_pair_draws_symbols() {
    let mut seen = std::collections::HashSet::new();
    for _ in 0..200 {
        let mut pair = [0u8; 2];
        gen_pair(&mut pair);
        assert!(KEY_CHARS.contains(&pair[0]));
        assert!(KEY_CHARS.contains(&pair[1]));
        seen.insert(pair);
    }
    assert!(seen.len() > 1);
    let mut longer = [0u8; 9];
    gen_pair(&mut longer);
    assert!(longer.iter().all(|c| KEY_CHARS.contains(c)));
    let mut none: [u8; 0] = [];
    gen_pair(&mut none);
}

#[test]
fn checksum_values() {
    assert_eq!(get_checksum(b""), 0);
    assert_eq!(get_checksum(b"A"), 25335);
    assert_eq!(get_checksum(b"DDDDDDDDDDDDDDDDDDDDDDDD"), 38162);
    assert_eq!(get_checksum(b"3BH4194ZD64KDT5JDPUYTBSN"), 34211);
    assert_eq!(get_check_symbol(b"3BH4194ZD64KDT5JDPUYTBSN"), b'9');
}

#[test]
fn checksum_is_verified_on_the_last_symbol() {
    assert!(verify_checksum(b"3BH4194ZD64KDT5JDPUYTBSN9"));
    for c in KEY_CHARS {
        let mut key = *b"3BH4194ZD64KDT5JDPUYTBSN9";
        key[24] = c;
        assert_eq!(verify_checksum(&key), c == b'9');
    }
    assert!(!verify_checksum(b"3BH4194ZD64KDT5JDPUYTBSN"));
    assert!(!verify_checksum(b"3BH4194ZD64KDT5JDPUYTBSN99"));
    assert!(!verify_checksum(b""));
    assert!(!verify_checksum(b"4BH4194ZD64KDT5JDPUYTBSN9"));
}

#[test]
fn sanitize_keeps_letters_and_digits() {
    assert_eq!(sanitize(b"  3BH41-94ZD6 4KDT5JD-PUY_TBSN9 "), b"3BH4194ZD64KDT5JDPUYTBSN9".to_vec());
    assert_eq!(sanitize(b""), Vec::<u8>::new());
    assert_eq!(sanitize(b"-_ !"), Vec::<u8>::new());
    assert_eq!(sanitize(b"aZ09/:@[`{"), b"aZ09".to_vec());
    assert_eq!(sanitize(&[0xC3, 0xA9, b'x', 0xFF, 0x80]), b"x".to_vec());
    for c in 0..=255u8 {
        assert_eq!(is_ascii_alphanumeric(c), c.is_ascii_alphanumeric());
    }
    let once = sanitize(b"a-b c_d");
    assert_eq!(sanitize(&once), once);
}

#[test]
fn format_key_groups_by_five() {
    assert_eq!(format_key(b"3BH4194ZD64KDT5JDPUYTBSN9", true), "3BH41-94ZD6-4KDT5-JDPUY-TBSN9");
    assert_eq!(format_key(b"3BH4194ZD64KDT5JDPUYTBSN9", false), "3BH4194ZD64KDT5JDPUYTBSN9");
}

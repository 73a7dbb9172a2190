use aida64_keys_lib::{Date, KeyEdition, KeyError, License};

fn sample() -> License {
    License::from_parts(KeyEdition::Extreme, Date::new(2022, 11, 12), 409, 72, 61)
}

#[test]
fn parse_license() {
    assert!(
        License::from_key("  3BH41-94ZD6 4KDT5JD-PUY_TBSN9 ".as_bytes()).unwrap().is_valid_key(),
        "parsed valid license as invalid!"
    );

    assert!(
        License::from_key("  3BH41-94ZD6 4KDT5JD-PUY_TBSN2 ".as_bytes()).is_err(),
        "parsed license did not trip the checksum check!"
    );
}

#[test]
fn generate() {
    for edition in KeyEdition::all() {
        assert!(License::new(edition).is_valid_key(), "generated invalid license!");
        assert!(
            License::new(edition).with_license_expiry(Some(50)).is_valid_key(),
            "generated invalid license when using an expiry!"
        );
    }
}

#[test]
fn parse_reads_every_field() {
    let license = License::from_key("  3BH41-94ZD6 4KDT5JD-PUY_TBSN9 ".as_bytes()).unwrap();
    assert_eq!(license, sample());
    assert_eq!(license.edition, KeyEdition::Extreme);
    assert_eq!(license.seats, 1);
    assert_eq!(license.purchase_date, Date::new(2022, 11, 12));
    assert_eq!(license.expiry, None);
    assert_eq!(license.maintenance_expiry, 3658);
    assert_eq!((license.salt1, license.salt2, license.salt3), (409, 72, 61));
}

#[test]
fn parse_reports_checksum() {
    assert_eq!(
        License::from_key("  3BH41-94ZD6 4KDT5JD-PUY_TBSN2 ".as_bytes()),
        Err(KeyError::InvalidChecksum { expected: 34211, found: 50 })
    );
}

#[test]
fn parse_reports_length() {
    assert_eq!(
        License::from_key("ABC".as_bytes()),
        Err(KeyError::InvalidLength { expected: 25, found: 3 })
    );
    assert_eq!(
        License::from_key("".as_bytes()),
        Err(KeyError::InvalidLength { expected: 25, found: 0 })
    );
    assert_eq!(
        License::from_key("3BH4194ZD64KDT5JDPUYTBSN".as_bytes()),
        Err(KeyError::InvalidLength { expected: 25, found: 24 })
    );
    assert_eq!(
        License::from_key("3BH41-94ZD6-4KDT5-JDPUY-TBSN9-9".as_bytes()),
        Err(KeyError::InvalidLength { expected: 25, found: 26 })
    );
    assert_eq!(
        License::from_key(" -_ \n".as_bytes()),
        Err(KeyError::InvalidLength { expected: 25, found: 0 })
    );
}

#[test]
fn parse_reports_unknown_edition() {
    assert_eq!(
        License::from_key("3UH4194ZD64KDT5JDPUYTBSN2".as_bytes()),
        Err(KeyError::UnknownEdition)
    );
    assert_eq!(
        License::from_key("3LH4194ZD64KDT5JDPUYTBSN1".as_bytes()),
        Err(KeyError::UnknownEdition)
    );
}

#[test]
fn parse_passes_over_filler() {
    let plain = License::from_key("3BH4194ZD64KDT5JDPUYTBSN9".as_bytes());
    assert!(plain.is_ok());
    for filled in [
        "3BH41-94ZD6-4KDT5-JDPUY-TBSN9",
        "  3BH41-94ZD6 4KDT5JD-PUY_TBSN9 ",
        "3.B.H.4.1.9.4.Z.D.6.4.K.D.T.5.J.D.P.U.Y.T.B.S.N.9",
        "\t3BH4194ZD64KDT5JDPUYTBSN9\r\n",
        "{3BH4194ZD64K}[DT5JDPUYTBSN9]",
    ] {
        assert_eq!(License::from_key(filled.as_bytes()), plain);
    }
    let mut bytes = "3BH4194ZD64KDT5JDPUYTBSN9".as_bytes().to_vec();
    bytes.insert(7, 0xC3);
    bytes.insert(8, 0xA9);
    bytes.push(0x00);
    assert_eq!(License::from_key(&bytes), plain);
}

#[test]
fn parse_is_case_sensitive() {
    assert_eq!(
        License::from_key("3bh4194zd64kdt5jdpuytbsn9".as_bytes()),
        Err(KeyError::InvalidChecksum { expected: 11042, found: 57 })
    );
}

#[test]
fn key_for_a_seed_is_exact() {
    let license = License::from_parts(KeyEdition::Extreme, Date::new(2026, 10, 28), 100, 0, 99)
        .with_license_expiry(Some(50));
    assert_eq!(&license.generate_with_seed(*b"DD"), b"FTUY4KFJD6P1DJKTDMAY56DDW");

    let license = License::from_parts(KeyEdition::Business, Date::new(2004, 1, 1), 988, 99, 99)
        .with_seats(797)
        .with_maintenance_expiry(1);
    assert_eq!(&license.generate_with_seed(*b"EE"), b"YPPMU6Y8DBX8DP4KD2C1FFEEE");

    let license = License::from_parts(KeyEdition::NetworkAudit, Date::new(2034, 12, 31), 409, 72, 61);
    assert_eq!(&license.generate_with_seed(*b"7K"), b"3VHN4HFWDBMND6SYDP5Y917KT");

    let license = License::from_parts(KeyEdition::Engineer, Date::new(2020, 2, 29), 500, 50, 5)
        .with_seats(25)
        .with_license_expiry(Some(32))
        .with_maintenance_expiry(365);
    assert_eq!(&license.generate_with_seed(*b"3B"), b"4DQWUADDD68DD98MD5PYV13BE");

    assert_eq!(&sample().generate_with_seed(*b"SN"), b"3BH4194ZD64KDT5JDPUYTBSN9");
}

#[test]
fn generated_keys_are_25_symbols() {
    let alphabet = b"DY14UF3RHWCXLQB6IKJT9N5AGS2PM8VZ7E";
    for edition in KeyEdition::all() {
        let license = License::new(edition).with_seats(797).with_license_expiry(Some(3658));
        for _ in 0..50 {
            let key = license.generate();
            assert_eq!(key.len(), 25);
            assert!(key.iter().all(|c| alphabet.contains(c)));
            assert!(aida64_keys_lib::checksum::verify_checksum(&key));
            assert_eq!(key, license.generate_with_seed([key[22], key[23]]));
        }
    }
}

#[test]
fn generated_keys_differ() {
    let license = sample();
    let first = license.generate();
    assert!((0..40).any(|_| license.generate() != first));
}

#[test]
fn generated_text_is_grouped() {
    let license = sample();
    let text = license.generate_string(true);
    assert_eq!(text.len(), 29);
    for (i, c) in text.chars().enumerate() {
        if i == 5 || i == 11 || i == 17 || i == 23 {
            assert_eq!(c, '-');
        } else {
            assert!("DY14UF3RHWCXLQB6IKJT9N5AGS2PM8VZ7E".contains(c));
        }
    }
    let plain: String = text.chars().filter(|c| *c != '-').collect();
    let seed = [plain.as_bytes()[22], plain.as_bytes()[23]];
    assert_eq!(plain.as_bytes(), &license.generate_with_seed(seed));

    let text = license.generate_string(false);
    assert_eq!(text.len(), 25);
    let seed = [text.as_bytes()[22], text.as_bytes()[23]];
    assert_eq!(text.as_bytes(), &license.generate_with_seed(seed));
}

#[test]
fn every_edition_comes_back() {
    for edition in KeyEdition::all() {
        let text = License::new(edition).generate_string(true);
        let read = License::from_key(text.as_bytes()).unwrap();
        assert_eq!(read.edition, edition);
    }
}

#[test]
fn perpetual_license_comes_back_whole() {
    for edition in KeyEdition::all() {
        let license = License::new(edition).with_seats(321).with_maintenance_expiry(1000);
        for _ in 0..50 {
            assert_eq!(License::from_key(&license.generate()), Ok(license));
        }
    }
    let widest = License::from_parts(KeyEdition::Business, Date::new(2034, 12, 31), 1023, 1023, 1023)
        .with_seats(797);
    let widest = License { seats: 0xFFFFF, maintenance_expiry: 0x7FFF, ..widest };
    for first in b"DY14UF3RHWCXLQB6IKJT9N5AGS2PM8VZ7E" {
        for second in b"DY14UF3RHWCXLQB6IKJT9N5AGS2PM8VZ7E" {
            let key = widest.generate_with_seed([*first, *second]);
            assert_eq!(License::from_key(&key), Ok(widest));
        }
    }
}

#[test]
fn stable_fields_come_back() {
    let license = License::from_parts(KeyEdition::Engineer, Date::new(2030, 6, 15), 100, 99, 0)
        .with_seats(17)
        .with_license_expiry(Some(400))
        .with_maintenance_expiry(730);
    for _ in 0..50 {
        let read = License::from_key(&license.generate()).unwrap();
        assert_eq!(read.edition, license.edition);
        assert_eq!(read.seats, license.seats);
        assert_eq!(read.purchase_date, license.purchase_date);
        assert_eq!(read.maintenance_expiry, license.maintenance_expiry);
        assert_eq!((read.salt1, read.salt2, read.salt3), (100, 99, 0));
    }
}

#[test]
fn purchase_year_after_2034_does_not_come_back() {
    let license = License::from_parts(KeyEdition::Business, Date::new(2035, 6, 15), 100, 0, 0);
    let read = License::from_key(&license.generate()).unwrap();
    assert_eq!(read.purchase_date, Date::new(2003, 6, 15));
}

#[test]
fn expiry_is_written_as_days_and_read_as_a_date() {
    let license = License::from_parts(KeyEdition::Extreme, Date::new(2026, 10, 28), 100, 0, 99)
        .with_license_expiry(Some(50));
    let read = License::from_key(&license.generate()).unwrap();
    assert_eq!(read.expiry, Some(-8684));
    assert_eq!(
        License::from_key(b"FTUY4KFJD6P1DJKTDMAY56DDW").unwrap().expiry,
        Some(-8684)
    );
}

#[test]
fn expiry_off_the_calendar_is_read_as_zero_days() {
    let read = License::from_key(b"4DQWUADDD68DD98MD5PYV13BE").unwrap();
    assert_eq!(read.purchase_date, Date::new(2020, 2, 29));
    assert_eq!(read.expiry, Some(0));
    assert_eq!(read.seats, 25);
    assert_eq!(read.maintenance_expiry, 365);
    assert_eq!(aida64_keys_lib::codec::decoded_expiry(32, None), Some(0));
    assert_eq!(aida64_keys_lib::codec::decoded_expiry(32, Some(-7)), Some(-7));
    assert_eq!(aida64_keys_lib::codec::decoded_expiry(0, Some(-7)), None);
    assert_eq!(aida64_keys_lib::codec::decoded_expiry(0, None), None);
}

#[test]
fn license_with_expiry_is_valid_and_parses() {
    let license = License::new(KeyEdition::Extreme).with_license_expiry(Some(50));
    assert!(license.is_valid_key());
    let read = License::from_key(license.generate_string(true).as_bytes()).unwrap();
    assert_eq!(read.edition, KeyEdition::Extreme);
    assert_ne!(read.expiry, Some(50));
}

#[test]
fn seats_are_clamped() {
    let license = License::new(KeyEdition::Business).with_seats(1000);
    assert_eq!(license.seats, 797);
    assert_eq!(License::from_key(&license.generate()).unwrap().seats, 797);
    assert_eq!(License::new(KeyEdition::Business).with_seats(798).seats, 797);
    assert_eq!(License::new(KeyEdition::Business).with_seats(797).seats, 797);
    assert_eq!(License::new(KeyEdition::Business).with_seats(1).seats, 1);
    assert_eq!(License::new(KeyEdition::Business).with_seats(0).seats, 1);
    assert_eq!(License::new(KeyEdition::Business).with_seats(-5).seats, 1);
    assert_eq!(License::new(KeyEdition::Business).with_seats(400).seats, 400);
}

#[test]
fn seats_at_the_bounds() {
    let one = sample().with_seats(1);
    assert!(one.is_valid_key());
    assert_eq!(License::from_key(&one.generate()).unwrap().seats, 1);
    let most = sample().with_seats(797);
    assert_eq!(License::from_key(&most.generate()).unwrap().seats, 797);
    assert!(!most.is_valid_key());
    assert!(License { seats: 796, ..sample() }.is_valid_key());
    assert!(License { seats: 0, ..sample() }.is_valid_key());
    assert!(!License { seats: -1, ..sample() }.is_valid_key());
}

#[test]
fn purchase_date_at_the_bounds() {
    assert!(sample().with_purchase_date(Date::new(2004, 1, 1)).is_valid_key());
    assert!(sample().with_purchase_date(Date::new(2099, 1, 1)).is_valid_key());
    assert!(!License { purchase_date: Date::new(2003, 12, 31), ..sample() }.is_valid_key());
    assert!(!License { purchase_date: Date::new(2099, 1, 2), ..sample() }.is_valid_key());
    assert!(!License { purchase_date: Date::new(2100, 1, 1), ..sample() }.is_valid_key());
    assert_eq!(
        sample().with_purchase_date(Date::new(1999, 7, 7)).purchase_date,
        Date::new(2004, 1, 1)
    );
    assert_eq!(
        sample().with_purchase_date(Date::new(2099, 1, 2)).purchase_date,
        Date::new(2099, 1, 1)
    );
    assert_eq!(
        sample().with_purchase_date(Date::new(2050, 2, 3)).purchase_date,
        Date::new(2050, 2, 3)
    );
}

#[test]
fn maintenance_at_the_bounds() {
    let short = sample().with_maintenance_expiry(1);
    assert_eq!(short.maintenance_expiry, 1);
    assert_eq!(License::from_key(&short.generate()).unwrap().maintenance_expiry, 1);
    let long = sample().with_maintenance_expiry(3658);
    assert_eq!(long.maintenance_expiry, 3658);
    assert_eq!(License::from_key(&long.generate()).unwrap().maintenance_expiry, 3658);
    assert!(long.is_valid_key());
    assert!(!License { maintenance_expiry: 3659, ..sample() }.is_valid_key());
    assert_eq!(sample().with_maintenance_expiry(3659).maintenance_expiry, 3658);
    assert_eq!(sample().with_maintenance_expiry(0).maintenance_expiry, 1);
    assert_eq!(sample().with_maintenance_expiry(-9).maintenance_expiry, 1);
}

#[test]
fn salts_at_the_bounds() {
    assert!(License { salt1: 99, ..sample() }.is_valid_key());
    assert!(License { salt1: 989, ..sample() }.is_valid_key());
    assert!(!License { salt1: 98, ..sample() }.is_valid_key());
    assert!(!License { salt1: 990, ..sample() }.is_valid_key());
    assert!(License { salt2: 100, ..sample() }.is_valid_key());
    assert!(!License { salt2: 101, ..sample() }.is_valid_key());
    assert!(License { salt3: 100, ..sample() }.is_valid_key());
    assert!(!License { salt3: 101, ..sample() }.is_valid_key());
}

#[test]
fn new_license_has_defaults() {
    for edition in KeyEdition::all() {
        let license = License::new(edition);
        assert_eq!(license.edition, edition);
        assert_eq!(license.seats, 1);
        assert_eq!(license.expiry, None);
        assert_eq!(license.maintenance_expiry, 3658);
        assert!((100..=988).contains(&license.salt1));
        assert!((0..=99).contains(&license.salt2));
        assert!((0..=99).contains(&license.salt3));
    }
    assert_eq!(
        sample(),
        License {
            edition: KeyEdition::Extreme,
            seats: 1,
            purchase_date: Date::new(2022, 11, 12),
            expiry: None,
            maintenance_expiry: 3658,
            salt1: 409,
            salt2: 72,
            salt3: 61,
        }
    );
}

#[test]
fn new_licenses_draw_their_salts() {
    let first = License::new(KeyEdition::Business);
    assert!((0..40).any(|_| {
        let next = License::new(KeyEdition::Business);
        (next.salt1, next.salt2, next.salt3) != (first.salt1, first.salt2, first.salt3)
    }));
}

#[test]
fn builders_set_one_field() {
    let license = sample().with_edition(KeyEdition::NetworkAudit);
    assert_eq!(license, License { edition: KeyEdition::NetworkAudit, ..sample() });
    let license = sample().with_license_expiry(Some(-3));
    assert_eq!(license, License { expiry: Some(-3), ..sample() });
    let license = license.with_license_expiry(None);
    assert_eq!(license, sample());
}

#[test]
fn validity_counts_days_since_purchase() {
    let license = sample().with_license_expiry(Some(10));
    assert!(license.is_valid_after(Some(9)));
    assert!(license.is_valid_after(Some(0)));
    assert!(license.is_valid_after(Some(-400)));
    assert!(!license.is_valid_after(Some(10)));
    assert!(!license.is_valid_after(Some(11)));
    assert!(!license.is_valid_after(None));
    assert!(sample().is_valid_after(None));
    assert!(sample().is_valid_after(Some(100_000)));
    assert!(!License { seats: 797, ..sample() }.is_valid_after(Some(0)));
}

#[test]
fn validity_on_a_day() {
    let license = sample().with_license_expiry(Some(1447));
    assert!(license.is_valid_on(&Date::new(2026, 10, 28)));
    assert!(!license.is_valid_on(&Date::new(2026, 10, 29)));
    assert!(license.is_valid_on(&Date::new(2022, 11, 12)));
    assert!(license.is_valid_on(&Date::new(2001, 1, 1)));
    assert!(!license.is_valid_on(&Date::new(2026, 2, 30)));
    assert!(sample().is_valid_on(&Date::new(2026, 2, 30)));

    let leap = License { purchase_date: Date::new(2020, 2, 29), ..sample() };
    assert!(leap.with_license_expiry(Some(367)).is_valid_on(&Date::new(2021, 3, 1)));
    assert!(!leap.with_license_expiry(Some(366)).is_valid_on(&Date::new(2021, 3, 1)));

    let off_calendar = License { purchase_date: Date::new(2021, 2, 29), ..sample() };
    assert!(off_calendar.is_valid_on(&Date::new(2021, 3, 1)));
    assert!(!off_calendar.with_license_expiry(Some(3000)).is_valid_on(&Date::new(2021, 3, 1)));
}

#[test]
fn encodable_fields() {
    assert!(sample().is_encodable());
    assert!(sample().with_license_expiry(Some(0)).is_encodable());
    assert!(!sample().with_license_expiry(Some(-1)).is_encodable());
    assert!(!License { seats: -1, ..sample() }.is_encodable());
    assert!(!License { salt1: -1, ..sample() }.is_encodable());
    assert!(!License { salt2: -1, ..sample() }.is_encodable());
    assert!(!License { salt3: -1, ..sample() }.is_encodable());
    assert!(!License { maintenance_expiry: -1, ..sample() }.is_encodable());
    assert!(sample().with_license_expiry(Some((1 << 32) + 5)).is_encodable());
    assert!(!sample().with_license_expiry(Some(1 << 31)).is_encodable());
    assert_eq!(
        sample().with_license_expiry(Some((1 << 32) + 5)).generate_with_seed(*b"SN"),
        sample().with_license_expiry(Some(5)).generate_with_seed(*b"SN")
    );
}

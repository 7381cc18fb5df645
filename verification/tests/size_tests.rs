use server_monitor::size::{
    magnitude_of, SizeParseError, SizeValue, Unit, GIGABYTE, KILOBYTE, MEGABYTE, TERABYTE,
};

fn parse(text: &str) -> Result<u64, SizeParseError> {
    SizeValue::parse(text).map(|s| s.bytes)
}

fn render(bytes: u64) -> String {
    SizeValue::from_bytes(bytes).render()
}

#[test]
fn one_and_a_half_gigabytes() {
    assert_eq!(parse("1.5GB"), Ok(1_610_612_736));
    assert_eq!(parse("1.5GB"), Ok(3 * GIGABYTE / 2));
}

#[test]
fn twenty_gigabytes_round_trip() {
    let size = SizeValue::parse("20GB").unwrap();
    assert_eq!(size.bytes, 21_474_836_480);
    assert_eq!(size.render(), "20GB");
    assert_eq!(SizeValue::parse(&size.render()), Ok(size));
}

#[test]
fn units_are_powers_of_1024() {
    assert_eq!(KILOBYTE, 1 << 10);
    assert_eq!(MEGABYTE, 1 << 20);
    assert_eq!(GIGABYTE, 1 << 30);
    assert_eq!(TERABYTE, 1 << 40);
    assert_eq!(Unit::B.bytes(), 1);
    assert_eq!(Unit::KB.bytes(), 1024);
    assert_eq!(Unit::MB.bytes(), 1_048_576);
    assert_eq!(Unit::GB.bytes(), 1_073_741_824);
    assert_eq!(Unit::TB.bytes(), 1_099_511_627_776);
    assert_eq!(Unit::B.suffix_text(), "B");
    assert_eq!(Unit::KB.suffix_text(), "KB");
    assert_eq!(Unit::MB.suffix_text(), "MB");
    assert_eq!(Unit::GB.suffix_text(), "GB");
    assert_eq!(Unit::TB.suffix_text(), "TB");
}

#[test]
fn every_spelling_of_a_unit_is_read() {
    assert_eq!(parse("512B"), Ok(512));
    assert_eq!(parse("512b"), Ok(512));
    for text in ["3K", "3k", "3KB", "3kb", "3Kb", "3kB", "3KiB", "3kib", "3KIB"] {
        assert_eq!(parse(text), Ok(3 * 1024), "{}", text);
    }
    for text in ["3M", "3MB", "3MiB", "3mib"] {
        assert_eq!(parse(text), Ok(3 * 1_048_576), "{}", text);
    }
    for text in ["3G", "3gb", "3GiB"] {
        assert_eq!(parse(text), Ok(3 * 1_073_741_824), "{}", text);
    }
    for text in ["3T", "3TB", "3tIb"] {
        assert_eq!(parse(text), Ok(3 * 1_099_511_627_776), "{}", text);
    }
}

#[test]
fn fractions_truncate_to_whole_bytes() {
    assert_eq!(parse("0.5KB"), Ok(512));
    assert_eq!(parse("0.001KB"), Ok(1));
    assert_eq!(parse("0.0009KB"), Ok(0));
    assert_eq!(parse("1.23GB"), Ok(1_320_702_443));
    assert_eq!(parse("2.50MB"), Ok(2_621_440));
    assert_eq!(parse("0.99999999999999999999999999999999999999999999KB"), Ok(1023));
    assert_eq!(parse("0.00000000000000000000000000000000000000000001TB"), Ok(0));
    assert_eq!(parse("007.5B"), Ok(7));
    assert_eq!(parse("0B"), Ok(0));
}

#[test]
fn missing_number() {
    assert_eq!(parse(""), Err(SizeParseError::MissingNumber));
    assert_eq!(parse("GB"), Err(SizeParseError::MissingNumber));
    assert_eq!(parse(".5GB"), Err(SizeParseError::MissingNumber));
    assert_eq!(parse(" 1GB"), Err(SizeParseError::MissingNumber));
    assert_eq!(parse("-1GB"), Err(SizeParseError::MissingNumber));
}

#[test]
fn missing_fraction() {
    assert_eq!(parse("1."), Err(SizeParseError::MissingFraction));
    assert_eq!(parse("1.GB"), Err(SizeParseError::MissingFraction));
    assert_eq!(parse("1..5GB"), Err(SizeParseError::MissingFraction));
}

#[test]
fn unknown_unit() {
    assert_eq!(parse("1"), Err(SizeParseError::UnknownUnit));
    assert_eq!(parse("1.5"), Err(SizeParseError::UnknownUnit));
    assert_eq!(parse("1XB"), Err(SizeParseError::UnknownUnit));
    assert_eq!(parse("1 GB"), Err(SizeParseError::UnknownUnit));
    assert_eq!(parse("1GB "), Err(SizeParseError::UnknownUnit));
    assert_eq!(parse("1GBs"), Err(SizeParseError::UnknownUnit));
    assert_eq!(parse("1GiBB"), Err(SizeParseError::UnknownUnit));
    assert_eq!(parse("1bb"), Err(SizeParseError::UnknownUnit));
    assert_eq!(parse("1iB"), Err(SizeParseError::UnknownUnit));
    assert_eq!(parse("1PB"), Err(SizeParseError::UnknownUnit));
    assert_eq!(parse("1.5.5GB"), Err(SizeParseError::UnknownUnit));
    assert_eq!(parse("1GXB"), Err(SizeParseError::UnknownUnit));
}

#[test]
fn too_large() {
    assert_eq!(parse("18446744073709551615B"), Ok(u64::MAX));
    assert_eq!(parse("18446744073709551616B"), Err(SizeParseError::TooLarge));
    assert_eq!(parse("16777216TB"), Err(SizeParseError::TooLarge));
    assert_eq!(parse("16777215.99TB"), Ok(18_446_744_062_714_435_338));
    assert_eq!(parse("16777215.9999999999999TB"), Ok(u64::MAX));
    assert_eq!(
        parse("99999999999999999999999999999999999999999999999999KB"),
        Err(SizeParseError::TooLarge)
    );
}

#[test]
fn sizes_are_written_in_their_greatest_unit() {
    assert_eq!(render(0), "0B");
    assert_eq!(render(1), "1B");
    assert_eq!(render(1023), "1023B");
    assert_eq!(render(1024), "1KB");
    assert_eq!(render(1034), "1KB");
    assert_eq!(render(1035), "1.01KB");
    assert_eq!(render(1536), "1.5KB");
    assert_eq!(render(1_048_575), "1023.99KB");
    assert_eq!(render(1_048_576), "1MB");
    assert_eq!(render(123_456_789), "117.73MB");
    assert_eq!(render(1_610_612_736), "1.5GB");
    assert_eq!(render(10 * GIGABYTE + 1), "10GB");
    assert_eq!(render(5 * TERABYTE + TERABYTE / 2), "5.5TB");
    assert_eq!(render(u64::MAX), "16777215.99TB");
}

#[test]
fn magnitude_is_the_greatest_unit_reached() {
    assert_eq!(magnitude_of(0), Unit::B);
    assert_eq!(magnitude_of(1023), Unit::B);
    assert_eq!(magnitude_of(1024), Unit::KB);
    assert_eq!(magnitude_of(MEGABYTE - 1), Unit::KB);
    assert_eq!(magnitude_of(MEGABYTE), Unit::MB);
    assert_eq!(magnitude_of(GIGABYTE), Unit::GB);
    assert_eq!(magnitude_of(TERABYTE - 1), Unit::GB);
    assert_eq!(magnitude_of(TERABYTE), Unit::TB);
    assert_eq!(magnitude_of(u64::MAX), Unit::TB);
}

#[test]
fn a_written_size_reads_back_close_by_in_the_same_unit() {
    let samples = [
        0u64,
        1,
        1023,
        1024,
        1025,
        1035,
        1_048_575,
        1_048_576,
        123_456_789,
        1_320_702_443,
        GIGABYTE - 1,
        GIGABYTE,
        TERABYTE - 1,
        TERABYTE + 12345,
        u64::MAX - 1,
        u64::MAX,
    ];
    for v in samples {
        let back = SizeValue::parse(&render(v)).unwrap().bytes;
        let unit = magnitude_of(v);
        assert!(back <= v, "{}", v);
        assert!(((v - back) as u128) * 100 < unit.bytes() as u128 + 100, "{}", v);
        assert_eq!(magnitude_of(back), unit, "{}", v);
    }
    assert_eq!(SizeValue::parse(&render(1_320_702_443)).map(|s| s.bytes), Ok(1_309_965_025));
}

#[test]
fn sizes_compare_by_bytes() {
    let small = SizeValue::from_bytes(10);
    let large = SizeValue::from_parts(10, Unit::GB);
    assert_eq!(large.bytes(), 10_737_418_240);
    assert!(large.exceeds(&small));
    assert!(!small.exceeds(&large));
    assert!(!small.exceeds(&small));
    assert!(small < large);
    assert_eq!(SizeValue::from_parts(3, Unit::B), SizeValue { bytes: 3 });
    assert_eq!(SizeValue::from_parts(16_777_215, Unit::TB).bytes(), 16_777_215 * TERABYTE);
}

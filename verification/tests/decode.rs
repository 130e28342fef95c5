use pronto_hex::{decode, DataErrorKind, Error};

#[test]
fn decodes_frame_with_empty_second_burst() {
    let frame = decode("0000 006D 0002 0000 0096 0046 0010 0010").unwrap();
    assert_eq!(frame.carrier_scale(), 0x006D);
    assert_eq!(frame.carrier_scale(), 109);
    assert_eq!(frame.burst1(), &[0x0096, 0x0046, 0x0010, 0x0010]);
    assert_eq!(frame.burst2(), &[]);
}

#[test]
fn rejects_nonzero_format_tag() {
    let err = decode("0001 006D 0000 0000").unwrap_err();
    assert_eq!(err, Error::DataError(DataErrorKind::FormatTagNotZero));
}

#[test]
fn rejects_missing_burst1_values() {
    let err = decode("0000 006D 0001 0000").unwrap_err();
    assert_eq!(err, Error::DataError(DataErrorKind::WrongLengthBurst1));
}

#[test]
fn rejects_burst2_length_mismatch() {
    let err = decode("0000 006D 0001 0001 0010 0010 0010").unwrap_err();
    assert_eq!(
        err,
        Error::DataError(DataErrorKind::BurstTwoLengthMismatch { expected: 2, actual: 1 })
    );
}

#[test]
fn rejects_invalid_hex_digit() {
    let err = decode("0000 00ZZ 0000 0000").unwrap_err();
    assert_eq!(err, Error::ParseError);
}

#[test]
fn rejects_too_few_elements() {
    let err = decode("0000").unwrap_err();
    assert_eq!(err, Error::DataError(DataErrorKind::NotEnoughElements));
}

#[test]
fn rejects_empty_input() {
    let err = decode("").unwrap_err();
    assert_eq!(err, Error::DataError(DataErrorKind::NotEnoughElements));
    let err = decode("   \t  ").unwrap_err();
    assert_eq!(err, Error::DataError(DataErrorKind::NotEnoughElements));
}

#[test]
fn rejects_value_over_16_bits() {
    let err = decode("10000 006D 0000 0000").unwrap_err();
    assert_eq!(err, Error::ParseError);
}

#[test]
fn rejects_sign_prefix() {
    let err = decode("+0000 006D 0000 0000").unwrap_err();
    assert_eq!(err, Error::ParseError);
}

#[test]
fn accepts_either_hex_digit_case() {
    let frame = decode("0000 00aB 0001 0000 00Ff 00fF").unwrap();
    assert_eq!(frame.carrier_scale(), 0x00AB);
    assert_eq!(frame.burst1(), &[0x00FF, 0x00FF]);
}

#[test]
fn accepts_any_ascii_whitespace_between_groups() {
    let frame = decode(" 0000\t006D \t 0001  0001\n0010 0010\r\n0020 0020 ").unwrap();
    assert_eq!(frame.carrier_scale(), 0x006D);
    assert_eq!(frame.burst1(), &[0x0010, 0x0010]);
    assert_eq!(frame.burst2(), &[0x0020, 0x0020]);
}

#[test]
fn decode_is_deterministic() {
    let text = "0000 006D 0002 0001 0096 0046 0010 0010 0020 0030";
    let a = decode(text).unwrap();
    let b = decode(text).unwrap();
    assert_eq!(a.carrier_scale(), b.carrier_scale());
    assert_eq!(a.burst1(), b.burst1());
    assert_eq!(a.burst2(), b.burst2());
}

#[test]
fn iter_prepends_zero_to_both_bursts() {
    let frame = decode("0000 006D 0002 0000 0096 0046 0010 0010").unwrap();
    let combined = frame.iter();
    assert_eq!(combined.len(), 1 + frame.burst1().len() + frame.burst2().len());
    assert_eq!(combined[0], 0);
    assert_eq!(combined, vec![0x0000, 0x0096, 0x0046, 0x0010, 0x0010]);
    // A fresh sequence on every call.
    assert_eq!(frame.iter(), combined);
}

#[test]
fn iter_on_frame_with_both_bursts() {
    let frame = decode("0000 006D 0001 0002 0010 0020 0030 0040 0050 0060").unwrap();
    assert_eq!(frame.iter(), vec![0x0000, 0x0010, 0x0020, 0x0030, 0x0040, 0x0050, 0x0060]);
}

#[test]
fn round_trip_reproduces_fields() {
    let carrier_scale: u16 = 0x006D;
    let burst1: Vec<u16> = vec![0x0096, 0x0046, 0x0010, 0x0010];
    let burst2: Vec<u16> = vec![0x0020, 0x0030];
    let mut text = String::new();
    for v in [0x0000u16, carrier_scale, (burst1.len() / 2) as u16, (burst2.len() / 2) as u16]
        .iter()
        .chain(burst1.iter())
        .chain(burst2.iter())
    {
        text.push_str(&format!("{:04x} ", v));
    }
    let frame = decode(&text).unwrap();
    assert_eq!(frame.carrier_scale(), carrier_scale);
    assert_eq!(frame.burst1(), &burst1[..]);
    assert_eq!(frame.burst2(), &burst2[..]);
}

#[test]
fn burst1_tolerates_trailing_data_only_when_burst2_matches() {
    // Extra values after burst 1 are burst 2; they must match its declared
    // length exactly.
    let err = decode("0000 006D 0000 0000 0010").unwrap_err();
    assert_eq!(
        err,
        Error::DataError(DataErrorKind::BurstTwoLengthMismatch { expected: 0, actual: 1 })
    );
}

#[test]
fn largest_carrier_scale_and_counts_are_accepted() {
    let frame = decode("0000 ffff 0001 0000 ffff ffff").unwrap();
    assert_eq!(frame.carrier_scale(), 0xFFFF);
    assert_eq!(frame.burst1(), &[0xFFFF, 0xFFFF]);
}

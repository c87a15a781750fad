use hid_parser::report::Report;

#[test]
fn extracts_single_bit_value() {
    let report: [u8; 1] = [0b1];
    let expected = 1;
    let actual = Report::extract_value(&report, 0, 1);

    assert_eq!(actual, expected);
    let report: [u8; 1] = [0b10];
    let expected = 1;
    let actual = Report::extract_value(&report, 1, 1);

    assert_eq!(actual, expected);

    assert_eq!(actual, expected);
    let report: [u8; 3] = [0b0, 0b0, 0b100];
    let expected = 1;
    let actual = Report::extract_value(&report, 18, 1);

    assert_eq!(actual, expected);

    let expected = 0;
    let actual = Report::extract_value(&report, 17, 1);

    assert_eq!(actual, expected);

    let expected = 0;
    let actual = Report::extract_value(&report, 19, 1);

    assert_eq!(actual, expected);
}

#[test]
fn extracts_multi_bit_value() {
    let report: [u8; 1] = [0b101];
    let expected = 5;
    let actual = Report::extract_value(&report, 0, 3);

    assert_eq!(actual, expected);

    let report: [u8; 3] = [0b0, 0b0, 0b1010];
    let expected = 5;
    let actual = Report::extract_value(&report, 17, 3);

    assert_eq!(actual, expected);

    let report: [u8; 3] = [0b10000000, 0b10, 0b0];
    let expected = 5;
    let actual = Report::extract_value(&report, 7, 3);

    assert_eq!(actual, expected);

    let report: [u8; 3] = [0b10000000, 0b10, 0b00011];
    let expected = 0b11000000101;
    let actual = Report::extract_value(&report, 7, 11);

    assert_eq!(actual, expected);

    let report: [u8; 2] = [0b10, 0b1000_0000];
    let expected = 0b100_0000_0000_0001;
    let actual = Report::extract_value(&report, 1, 15);

    assert_eq!(actual, expected);
}

#[test]
fn convert_any_bit_length_to_i32() {
    let actual = Report::signed((!27u8 + 1) as u32, 8);
    let expected = -27;

    println!("-27i32: {:032b}", -27i32);
    assert_eq!(actual, expected);

    let actual = Report::signed((!1u8 + 1) as u32, 8);
    let expected = -1;

    assert_eq!(actual, expected);

    let actual = Report::signed(1u8 as u32, 8);
    let expected = 1;

    assert_eq!(actual, expected);

    let actual = Report::signed(127u8 as u32, 8);
    let expected = 127;

    assert_eq!(actual, expected);

    let actual = Report::signed((!127u8 + 1) as u32, 8);
    let expected = -127;

    assert_eq!(actual, expected);
}

#[test]
fn extraction_round_trips_written_values() {
    // bit-extraction round-trip on concrete values: write a value
    // little-endian at an offset, read it back
    let report: [u8; 2] = [0x34, 0x12]; // 0x1234 little-endian
    assert_eq!(Report::extract_value(&report, 0, 16), 0x1234);
    assert_eq!(Report::extract_value(&report, 4, 8), 0x23);
    assert_eq!(Report::extract_value(&report, 8, 8), 0x12);

    let report: [u8; 4] = [0xEF, 0xBE, 0xAD, 0xDE];
    assert_eq!(Report::extract_value(&report, 0, 32), 0xDEAD_BEEF);
}

#[test]
fn sign_extension_round_trips() {
    // sign-extension round-trip on concrete values: encode as
    // two's-complement of the given width, read back
    assert_eq!(Report::signed(0xE5, 8), -27);
    assert_eq!(Report::signed(0x7F, 8), 127);
    assert_eq!(Report::signed(0x81, 8), -127);

    for v in [-8i32, -5, -1, 0, 1, 6, 7] {
        let encoded = (v as u32) & 0xF; // 4-bit two's complement
        assert_eq!(Report::signed(encoded, 4), v);
    }

    assert_eq!(Report::signed(0x8000_0000, 32), i32::MIN);
    assert_eq!(Report::signed(0x7FFF_FFFF, 32), i32::MAX);
    assert_eq!(Report::signed(0xFFFF_FFFF, 32), -1);
}

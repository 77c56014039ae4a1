use arcvm::text::utf8_ok;

#[test]
fn plain_ascii_is_valid() {
    assert!(utf8_ok(&b"Hello".to_vec()));
    assert!(utf8_ok(&Vec::new()));
}

#[test]
fn two_three_and_four_byte_scalars_are_valid() {
    assert!(utf8_ok(&vec![0xC3, 0xA9])); // U+00E9
    assert!(utf8_ok(&vec![0xE2, 0x82, 0xAC])); // U+20AC
    assert!(utf8_ok(&vec![0xF0, 0x9F, 0x98, 0x80])); // U+1F600
    assert!(utf8_ok(&vec![0xF4, 0x8F, 0xBF, 0xBF])); // U+10FFFF
}

#[test]
fn stray_and_missing_continuation_bytes_are_invalid() {
    assert!(!utf8_ok(&vec![0xFF]));
    assert!(!utf8_ok(&vec![0x80]));
    assert!(!utf8_ok(&vec![0xC3]));
    assert!(!utf8_ok(&vec![0xE2, 0x82]));
    assert!(!utf8_ok(&vec![0xC3, 0x41]));
}

#[test]
fn overlong_encodings_are_invalid() {
    assert!(!utf8_ok(&vec![0xC0, 0x80]));
    assert!(!utf8_ok(&vec![0xC1, 0xBF]));
    assert!(!utf8_ok(&vec![0xE0, 0x80, 0x80]));
    assert!(!utf8_ok(&vec![0xF0, 0x80, 0x80, 0x80]));
}

#[test]
fn surrogates_and_out_of_range_scalars_are_invalid() {
    assert!(!utf8_ok(&vec![0xED, 0xA0, 0x80])); // U+D800
    assert!(!utf8_ok(&vec![0xED, 0xBF, 0xBF])); // U+DFFF
    assert!(!utf8_ok(&vec![0xF4, 0x90, 0x80, 0x80])); // above U+10FFFF
    assert!(!utf8_ok(&vec![0xF8, 0x80, 0x80, 0x80, 0x80]));
}

#[test]
fn checker_agrees_with_the_standard_library() {
    let cases: &[&[u8]] = &[
        b"",
        b"Hello",
        b"\r\n",
        &[0xC3, 0xA9],
        &[0xE2, 0x82, 0xAC],
        &[0xF0, 0x9F, 0x98, 0x80],
        &[0xED, 0x9F, 0xBF],
        &[0xEE, 0x80, 0x80],
        &[0xED, 0xA0, 0x80],
        &[0xC0, 0xAF],
        &[0xF4, 0x90, 0x80, 0x80],
        &[0x41, 0xC3],
        &[0x41, 0xC3, 0xA9, 0x42],
        &[0xBF, 0x41],
    ];
    for case in cases {
        let v = case.to_vec();
        assert_eq!(utf8_ok(&v), std::str::from_utf8(case).is_ok());
    }
}

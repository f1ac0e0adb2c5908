use kompusim_gui::instr_decoder::hex_to_u64;

#[test]
fn hex_plain_digits() {
    assert_eq!(hex_to_u64("13"), 0x13);
    assert_eq!(hex_to_u64("0"), 0);
    assert_eq!(hex_to_u64("9393"), 0x9393);
    assert_eq!(hex_to_u64("ffffffff"), 0xFFFF_FFFF);
}

#[test]
fn hex_with_prefix() {
    assert_eq!(hex_to_u64("0x13"), 0x13);
    assert_eq!(hex_to_u64("0x0"), 0);
    assert_eq!(hex_to_u64("0xDEADBEEF"), 0xDEAD_BEEF);
    // Every repetition of the prefix is stripped.
    assert_eq!(hex_to_u64("0x0x12"), 0x12);
}

#[test]
fn hex_mixed_case() {
    assert_eq!(hex_to_u64("aB3F"), 0xAB3F);
    assert_eq!(hex_to_u64("0xFf"), 0xFF);
}

#[test]
fn hex_leading_plus() {
    assert_eq!(hex_to_u64("+1A"), 0x1A);
    assert_eq!(hex_to_u64("0x+1A"), 0x1A);
    assert_eq!(hex_to_u64("+"), 0);
}

#[test]
fn hex_malformed_is_zero() {
    assert_eq!(hex_to_u64(""), 0);
    assert_eq!(hex_to_u64("xyz"), 0);
    assert_eq!(hex_to_u64("12g4"), 0);
    assert_eq!(hex_to_u64("-5"), 0);
    assert_eq!(hex_to_u64("12 34"), 0);
    assert_eq!(hex_to_u64("0x"), 0);
}

#[test]
fn hex_overflow_is_zero() {
    assert_eq!(hex_to_u64("100000000"), 0);
    assert_eq!(hex_to_u64("0xFFFFFFFFF"), 0);
}

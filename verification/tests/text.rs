use uint256::{ParseError, Uint256};

const A_HEX: &str = "0123456789abcdeffedcba98765432100f1e2d3c4b5a69788796a5b4c3d2e1f0";
const A: Uint256 = Uint256([
    0x8796a5b4c3d2e1f0,
    0x0f1e2d3c4b5a6978,
    0xfedcba9876543210,
    0x0123456789abcdef,
]);
const B_HEX_UPPER: &str = "DEADBEEFCAFEBABE0123456789ABCDEF00000000FFFFFFFFFFFFFFFF00000001";
const B: Uint256 = Uint256([
    0xffffffff00000001,
    0x00000000ffffffff,
    0x0123456789abcdef,
    0xdeadbeefcafebabe,
]);

#[test]
fn from_hex_reads_chunks_from_the_right() {
    assert_eq!(Uint256::from_hex(A_HEX), Ok(A));
    assert_eq!(
        Uint256::from_hex("0000000000000004000000000000000300000000000000020000000000000001"),
        Ok(Uint256([1, 2, 3, 4]))
    );
}

#[test]
fn from_hex_takes_upper_and_mixed_case() {
    assert_eq!(Uint256::from_hex(B_HEX_UPPER), Ok(B));
    assert_eq!(
        Uint256::from_hex("dEaDbEeFcAfEbAbE0123456789aBcDeF00000000fFfFfFfFFfFfFfFf00000001"),
        Ok(B)
    );
}

#[test]
fn from_hex_of_the_named_values() {
    let zeros = "0".repeat(64);
    assert_eq!(Uint256::from_hex(&zeros), Ok(Uint256::zero()));
    assert_eq!(Uint256::from_hex(&format!("{}1", "0".repeat(63))), Ok(Uint256::one()));
    assert_eq!(Uint256::from_hex(&format!("{}2", "0".repeat(63))), Ok(Uint256::two()));
    assert_eq!(Uint256::from_hex(&"f".repeat(64)), Ok(Uint256::max_value()));
    assert_eq!(Uint256::from_hex(&"F".repeat(64)), Ok(Uint256::max_value()));
}

#[test]
fn from_hex_ignores_one_leading_prefix() {
    assert_eq!(Uint256::from_hex(&format!("0x{}", A_HEX)), Uint256::from_hex(A_HEX));
    assert_eq!(Uint256::from_hex(&format!("0x{}", A_HEX)), Ok(A));
    assert_eq!(Uint256::from_hex(&format!("0x{}", B_HEX_UPPER)), Ok(B));
}

#[test]
fn from_hex_rejects_wrong_lengths() {
    assert_eq!(Uint256::from_hex(&"0".repeat(63)), Err(ParseError::InvalidLength));
    assert_eq!(Uint256::from_hex(&"0".repeat(65)), Err(ParseError::InvalidLength));
    assert_eq!(Uint256::from_hex(""), Err(ParseError::InvalidLength));
    assert_eq!(Uint256::from_hex("0x"), Err(ParseError::InvalidLength));
    assert_eq!(Uint256::from_hex("1"), Err(ParseError::InvalidLength));
    assert_eq!(Uint256::from_hex(&format!("0x{}", "a".repeat(63))), Err(ParseError::InvalidLength));
    assert_eq!(Uint256::from_hex(&format!("0x{}", "a".repeat(65))), Err(ParseError::InvalidLength));
}

#[test]
fn from_hex_counts_the_length_before_it_looks_at_the_digits() {
    assert_eq!(Uint256::from_hex(&"g".repeat(63)), Err(ParseError::InvalidLength));
    assert_eq!(Uint256::from_hex(&"g".repeat(65)), Err(ParseError::InvalidLength));
}

#[test]
fn from_hex_strips_the_prefix_only_once_and_only_in_lower_case() {
    assert_eq!(Uint256::from_hex(&format!("0x0x{}", A_HEX)), Err(ParseError::InvalidLength));
    assert_eq!(Uint256::from_hex(&format!("0X{}", A_HEX)), Err(ParseError::InvalidLength));
    assert_eq!(
        Uint256::from_hex(&format!("0x0x{}", "0".repeat(62))),
        Err(ParseError::InvalidHexDigit)
    );
    assert_eq!(
        Uint256::from_hex(&format!("0x{}", "0".repeat(62))),
        Err(ParseError::InvalidLength)
    );
}

#[test]
fn from_hex_rejects_what_is_no_hex_digit() {
    assert_eq!(
        Uint256::from_hex(&format!("{}g", "0".repeat(63))),
        Err(ParseError::InvalidHexDigit)
    );
    assert_eq!(
        Uint256::from_hex(&format!("g{}", "0".repeat(63))),
        Err(ParseError::InvalidHexDigit)
    );
    assert_eq!(
        Uint256::from_hex(&format!("{}G{}", "0".repeat(20), "0".repeat(43))),
        Err(ParseError::InvalidHexDigit)
    );
    for bad in [" ", "_", "-", "/", ":", "@", "`", "x", "\n", "\0"] {
        let text = format!("{}{}{}", "1".repeat(31), bad, "1".repeat(32));
        assert_eq!(Uint256::from_hex(&text), Err(ParseError::InvalidHexDigit));
    }
}

#[test]
fn from_hex_takes_no_sign_before_a_chunk() {
    for at in [0, 16, 32, 48] {
        let text = format!("{}+{}", "0".repeat(at), "0".repeat(63 - at));
        assert_eq!(Uint256::from_hex(&text), Err(ParseError::InvalidHexDigit));
    }
}

#[test]
fn from_hex_rejects_text_that_is_not_ascii() {
    // 62 digits and one two-byte character: 64 bytes in all.
    let text = format!("{}\u{e9}{}", "0".repeat(15), "0".repeat(47));
    assert_eq!(text.len(), 64);
    assert_eq!(Uint256::from_hex(&text), Err(ParseError::InvalidHexDigit));
    // 64 characters, 65 bytes.
    let text = format!("{}\u{e9}", "0".repeat(63));
    assert_eq!(text.chars().count(), 64);
    assert_eq!(Uint256::from_hex(&text), Err(ParseError::InvalidLength));
}

#[test]
fn debug_text_of_the_named_values() {
    assert_eq!(
        format!("{:?}", Uint256::zero()),
        "Uint256(0x0000000000000000000000000000000000000000000000000000000000000000)"
    );
    assert_eq!(
        format!("{:?}", Uint256::one()),
        "Uint256(0x0000000000000000000000000000000000000000000000000000000000000001)"
    );
    assert_eq!(
        format!("{:?}", Uint256::two()),
        "Uint256(0x0000000000000000000000000000000000000000000000000000000000000002)"
    );
    assert_eq!(
        format!("{:?}", Uint256::max_value()),
        "Uint256(0xffffffffffffffffffffffffffffffffffffffffffffffffffffffffffffffff)"
    );
}

#[test]
fn debug_text_puts_the_top_limb_first_and_pads_each_limb() {
    assert_eq!(
        Uint256([0x1f, 0xabcdef, 0, 0xffff_0000_0000_0001]).to_debug_string(),
        "Uint256(0xffff00000000000100000000000000000000000000abcdef000000000000001f)"
    );
    assert_eq!(A.to_debug_string(), format!("Uint256(0x{})", A_HEX));
    assert_eq!(Uint256([1, 2, 3, 4]).to_debug_string().len(), 75);
}

#[test]
fn debug_formatting_and_debug_string_agree() {
    for x in [A, B, Uint256::zero(), Uint256::max_value(), Uint256([0, 1, 0, 0])] {
        assert_eq!(format!("{:?}", x), x.to_debug_string());
    }
}

#[test]
fn rendering_what_was_parsed_gives_the_digits_in_lower_case() {
    let parsed = Uint256::from_hex(A_HEX).unwrap();
    assert_eq!(parsed.to_debug_string(), format!("Uint256(0x{})", A_HEX));
    let parsed = Uint256::from_hex(B_HEX_UPPER).unwrap();
    assert_eq!(
        parsed.to_debug_string(),
        format!("Uint256(0x{})", B_HEX_UPPER.to_lowercase())
    );
}

#[test]
fn parsing_what_was_rendered_gives_the_value() {
    for x in [A, B, Uint256::zero(), Uint256::max_value(), Uint256([0, 0, 0, 1])] {
        let text = x.to_debug_string();
        let digits = &text["Uint256(".len()..text.len() - 1];
        assert_eq!(Uint256::from_hex(digits), Ok(x));
    }
}

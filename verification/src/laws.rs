//! Laws of the arithmetic and of the textual forms, stated over the spec
//! functions that the operations' contracts use.

use crate::error::{ArithmeticError, ParseError};
use crate::limbs::modulus;
use crate::modular::{
    lemma_mod_add_associative, lemma_mod_add_then_sub, lemma_mod_recompose,
    lemma_mod_sub_then_add,
};
use crate::parse::{
    all_hex_digits, hex_digit_value, hex_value, is_hex_digit, lemma_hex_value_bound, parse_hex,
    without_prefix,
};
use crate::render::{debug_text, hex_body, hex_char, hex_digits, lemma_hex_digits_len};
use crate::uint256::Uint256;
use vstd::arithmetic::div_mod::lemma_breakdown;
use vstd::arithmetic::power2::{lemma2_to64, lemma2_to64_rest, lemma_pow2_adds, lemma_pow2_pos, pow2};
use vstd::prelude::*;
use vstd::std_specs::ops::{AddSpec, DivSpec, MulSpec, RemSpec, SubSpec};

verus! {

/// Addition is commutative: `a + b == b + a`.
pub proof fn lemma_add_commutative(a: Uint256, b: Uint256)
    ensures
        a.add_spec(b) == b.add_spec(a),
{
}

/// Addition is associative: `(a + b) + c == a + (b + c)`.
pub proof fn lemma_add_associative(a: Uint256, b: Uint256, c: Uint256)
    ensures
        a.add_spec(b).add_spec(c) == a.add_spec(b.add_spec(c)),
{
    a.lemma_view_bound();
    b.lemma_view_bound();
    c.lemma_view_bound();
    Uint256::lemma_from_nat_view((a@ + b@) % modulus());
    Uint256::lemma_from_nat_view((b@ + c@) % modulus());
    lemma_mod_add_associative(a@, b@, c@, modulus());
}

/// Zero is the identity of addition: `a + 0 == a`.
pub proof fn lemma_add_zero(a: Uint256)
    ensures
        a.add_spec(Uint256::zero()) == a,
{
    a.lemma_view_bound();
    a.lemma_from_nat_of_view();
}

/// Subtraction undoes addition: `(a + b) − b == a`.
pub proof fn lemma_sub_undoes_add(a: Uint256, b: Uint256)
    ensures
        a.add_spec(b).sub_spec(b) == a,
{
    a.lemma_view_bound();
    b.lemma_view_bound();
    Uint256::lemma_from_nat_view((a@ + b@) % modulus());
    lemma_mod_add_then_sub(a@, b@, modulus());
    a.lemma_from_nat_of_view();
}

/// Addition undoes subtraction: `(a − b) + b == a`.
pub proof fn lemma_add_undoes_sub(a: Uint256, b: Uint256)
    ensures
        a.sub_spec(b).add_spec(b) == a,
{
    a.lemma_view_bound();
    b.lemma_view_bound();
    lemma_mod_sub_then_add(a@, b@, modulus());
    Uint256::lemma_from_nat_view(((a@ - b@) % (modulus() as int)) as nat);
    a.lemma_from_nat_of_view();
}

/// Division by zero and remainder by zero fail with `DivisionByZero`,
/// whatever the dividend.
pub proof fn lemma_division_by_zero(a: Uint256)
    ensures
        a.div_spec(Uint256::zero()) == Err::<Uint256, ArithmeticError>(
            ArithmeticError::DivisionByZero,
        ),
        a.rem_spec(Uint256::zero()) == Err::<Uint256, ArithmeticError>(
            ArithmeticError::DivisionByZero,
        ),
{
}

/// Quotient and remainder give the dividend back: for a nonzero `b`,
/// `(a / b) * b + (a % b) == a`, and neither the product nor the sum wraps.
pub proof fn lemma_div_rem_recompose(a: Uint256, b: Uint256)
    requires
        b != Uint256::zero(),
    ensures
        a.div_spec(b) is Ok,
        a.rem_spec(b) is Ok,
        a.div_spec(b)->Ok_0.mul_spec(b).add_spec(a.rem_spec(b)->Ok_0) == a,
        a.div_spec(b)->Ok_0@ * b@ + a.rem_spec(b)->Ok_0@ == a@,
        a.rem_spec(b)->Ok_0@ < b@,
{
    if b@ == 0 {
        b.lemma_view_injective(Uint256::zero());
    }
    a.lemma_view_bound();
    lemma_mod_recompose(a@, b@, modulus());
    Uint256::lemma_from_nat_view(a@ / b@);
    Uint256::lemma_from_nat_view(a@ % b@);
    Uint256::lemma_from_nat_view(((a@ / b@) * b@) % modulus());
    a.lemma_from_nat_of_view();
}

/// The lowercase form of an ASCII byte.
pub open spec fn ascii_lowercase(byte: u8) -> u8 {
    if 0x41 <= byte <= 0x5a {
        (byte + 0x20) as u8
    } else {
        byte
    }
}

/// A text of ASCII bytes as characters, upper case letters made lower case.
pub open spec fn lowercase_text(text: Seq<u8>) -> Seq<char> {
    Seq::new(text.len(), |i: int| ascii_lowercase(text[i]) as char)
}

/// Rendering the number that hexadecimal digits denote, in as many digits,
/// gives the digits back in lower case.
pub proof fn lemma_hex_digits_of_hex_value(text: Seq<u8>)
    requires
        all_hex_digits(text),
    ensures
        hex_digits(hex_value(text), text.len()) == lowercase_text(text),
    decreases text.len(),
{
    if text.len() == 0 {
        assert(hex_digits(hex_value(text), 0) =~= lowercase_text(text));
    } else {
        let front = text.drop_last();
        let last = text.last();
        assert(is_hex_digit(text[text.len() - 1]));
        assert forall|i: int| 0 <= i < front.len() implies is_hex_digit(#[trigger] front[i]) by {
            assert(front[i] == text[i]);
        }
        lemma_hex_digits_of_hex_value(front);
        let value = hex_value(text);
        assert(value / 16 == hex_value(front));
        assert(value % 16 == hex_digit_value(last));
        assert(hex_char(hex_digit_value(last)) == ascii_lowercase(last) as char);
        assert(hex_digits(value, text.len()) =~= lowercase_text(text));
    }
}

/// A chunk of 16 hexadecimal digits denotes a number that fits a limb, and
/// the limb renders as the chunk in lower case.
proof fn lemma_chunk_round_trip(text: Seq<u8>, from: int)
    requires
        all_hex_digits(text),
        0 <= from,
        from + 16 <= text.len(),
    ensures
        hex_value(text.subrange(from, from + 16)) <= u64::MAX,
        hex_digits(hex_value(text.subrange(from, from + 16)), 16) == lowercase_text(
            text.subrange(from, from + 16),
        ),
{
    let chunk = text.subrange(from, from + 16);
    assert forall|i: int| 0 <= i < chunk.len() implies is_hex_digit(#[trigger] chunk[i]) by {
        assert(chunk[i] == text[from + i]);
    }
    lemma2_to64_rest();
    lemma_hex_value_bound(chunk);
    lemma_hex_digits_of_hex_value(chunk);
}

/// Round trip: a text of 64 hexadecimal digits parses, and the parsed value
/// renders as the same 64 digits in the same order, in lower case.
pub proof fn lemma_render_of_parse(text: Seq<u8>)
    requires
        text.len() == 64,
        all_hex_digits(text),
    ensures
        parse_hex(text) is Ok,
        hex_body(parse_hex(text)->Ok_0) == lowercase_text(text),
        debug_text(parse_hex(text)->Ok_0) == seq!['U', 'i', 'n', 't', '2', '5', '6', '(', '0', 'x']
            + lowercase_text(text) + seq![')'],
{
    assert(is_hex_digit(text[1]));
    assert(without_prefix(text) == text);
    let value = parse_hex(text)->Ok_0;
    lemma_chunk_round_trip(text, 0);
    lemma_chunk_round_trip(text, 16);
    lemma_chunk_round_trip(text, 32);
    lemma_chunk_round_trip(text, 48);
    assert(hex_body(value) =~= lowercase_text(text));
}

/// A text whose length without the optional `0x` is not 64 is rejected
/// with `InvalidLength`. Texts of 63 and of 65 digits are such texts.
pub proof fn lemma_parse_rejects_length(text: Seq<u8>)
    requires
        without_prefix(text).len() != 64,
    ensures
        parse_hex(text) == Err::<Uint256, ParseError>(ParseError::InvalidLength),
{
}

/// A text of the right length that holds a byte which is no hexadecimal
/// digit is rejected with `InvalidHexDigit`.
pub proof fn lemma_parse_rejects_non_digit(text: Seq<u8>, at: int)
    requires
        without_prefix(text).len() == 64,
        0 <= at < 64,
        !is_hex_digit(without_prefix(text)[at]),
    ensures
        parse_hex(text) == Err::<Uint256, ParseError>(ParseError::InvalidHexDigit),
{
}

/// Prefix tolerance: a leading `0x` before 64 hexadecimal digits changes
/// nothing of what they parse to.
pub proof fn lemma_parse_ignores_prefix(text: Seq<u8>)
    requires
        text.len() == 64,
        all_hex_digits(text),
    ensures
        parse_hex(seq![0x30u8, 0x78u8] + text) == parse_hex(text),
        parse_hex(text) is Ok,
{
    let prefixed = seq![0x30u8, 0x78u8] + text;
    assert(is_hex_digit(text[1]));
    assert(without_prefix(text) == text);
    assert(prefixed[0] == 0x30 && prefixed[1] == 0x78);
    assert(without_prefix(prefixed) =~= text);
}

/// The number denoted by two texts of digits set side by side: the first
/// moves up by four bits for each digit of the second.
pub proof fn lemma_hex_value_concat(front: Seq<u8>, back: Seq<u8>)
    ensures
        hex_value(front + back) == hex_value(front) * pow2(4 * back.len()) + hex_value(back),
    decreases back.len(),
{
    lemma2_to64();
    if back.len() == 0 {
        assert(front + back =~= front);
        assert(hex_value(front) * 1 == hex_value(front)) by (nonlinear_arith);
    } else {
        let shorter = back.drop_last();
        assert((front + back).drop_last() =~= front + shorter);
        lemma_hex_value_concat(front, shorter);
        lemma_pow2_adds(4 * shorter.len(), 4);
        let high = hex_value(front);
        let weight = pow2(4 * shorter.len());
        assert(16 * (high * weight) == high * (weight * 16)) by (nonlinear_arith);
    }
}

/// What parses, parses to the number that its 64 digits denote.
pub proof fn lemma_parse_hex_value(text: Seq<u8>)
    requires
        parse_hex(text) is Ok,
    ensures
        parse_hex(text)->Ok_0@ == hex_value(without_prefix(text)),
{
    let body = without_prefix(text);
    let c3 = body.subrange(0, 16);
    let c2 = body.subrange(16, 32);
    let c1 = body.subrange(32, 48);
    let c0 = body.subrange(48, 64);
    lemma_chunk_round_trip(body, 0);
    lemma_chunk_round_trip(body, 16);
    lemma_chunk_round_trip(body, 32);
    lemma_chunk_round_trip(body, 48);
    assert(body =~= ((c3 + c2) + c1) + c0);
    lemma_hex_value_concat((c3 + c2) + c1, c0);
    lemma_hex_value_concat(c3 + c2, c1);
    lemma_hex_value_concat(c3, c2);
    lemma2_to64_rest();
    assert(pow2(4 * c0.len()) == 0x1_0000_0000_0000_0000);
    assert(hex_value(c3 + c2) == hex_value(c3) * 0x1_0000_0000_0000_0000 + hex_value(c2));
    assert(hex_value((c3 + c2) + c1) == hex_value(c3 + c2) * 0x1_0000_0000_0000_0000 + hex_value(
        c1,
    ));
    assert(hex_value(body) == hex_value((c3 + c2) + c1) * 0x1_0000_0000_0000_0000 + hex_value(c0));
}

/// The bytes of a text of ASCII characters.
pub open spec fn ascii_bytes(text: Seq<char>) -> Seq<u8> {
    Seq::new(text.len(), |i: int| text[i] as u8)
}

/// The digits that render a number are hexadecimal digits, and they denote
/// the number again, as far as their count reaches.
pub proof fn lemma_hex_value_of_hex_digits(n: nat, width: nat)
    ensures
        ascii_bytes(hex_digits(n, width)).len() == width,
        all_hex_digits(ascii_bytes(hex_digits(n, width))),
        hex_value(ascii_bytes(hex_digits(n, width))) == n % pow2(4 * width),
    decreases width,
{
    lemma2_to64();
    lemma_hex_digits_len(n, width);
    let text = ascii_bytes(hex_digits(n, width));
    if width > 0 {
        let shorter = ascii_bytes(hex_digits(n / 16, (width - 1) as nat));
        let digit = hex_char(n % 16) as u8;
        lemma_hex_value_of_hex_digits(n / 16, (width - 1) as nat);
        lemma_hex_digits_len(n / 16, (width - 1) as nat);
        assert(text.drop_last() =~= shorter);
        assert(text.last() == digit);
        assert(is_hex_digit(digit) && hex_digit_value(digit) == n % 16);
        assert forall|i: int| 0 <= i < text.len() implies is_hex_digit(#[trigger] text[i]) by {
            if i < width - 1 {
                assert(text[i] == shorter[i]);
            }
        }
        lemma_pow2_pos(4 * (width - 1) as nat);
        lemma_pow2_adds(4, 4 * (width - 1) as nat);
        lemma_breakdown(n as int, 16, pow2(4 * (width - 1) as nat) as int);
    }
}

/// Round trip from the value: the 64 digits that render a value parse back
/// to it.
pub proof fn lemma_parse_of_render(x: Uint256)
    ensures
        parse_hex(ascii_bytes(hex_body(x))) == Ok::<Uint256, ParseError>(x),
{
    let text = ascii_bytes(hex_body(x));
    lemma2_to64_rest();
    lemma_hex_value_of_hex_digits(x.0[3] as nat, 16);
    lemma_hex_value_of_hex_digits(x.0[2] as nat, 16);
    lemma_hex_value_of_hex_digits(x.0[1] as nat, 16);
    lemma_hex_value_of_hex_digits(x.0[0] as nat, 16);
    lemma_hex_digits_len(x.0[3] as nat, 16);
    lemma_hex_digits_len(x.0[2] as nat, 16);
    lemma_hex_digits_len(x.0[1] as nat, 16);
    lemma_hex_digits_len(x.0[0] as nat, 16);
    assert(text.subrange(0, 16) =~= ascii_bytes(hex_digits(x.0[3] as nat, 16)));
    assert(text.subrange(16, 32) =~= ascii_bytes(hex_digits(x.0[2] as nat, 16)));
    assert(text.subrange(32, 48) =~= ascii_bytes(hex_digits(x.0[1] as nat, 16)));
    assert(text.subrange(48, 64) =~= ascii_bytes(hex_digits(x.0[0] as nat, 16)));
    assert forall|i: int| 0 <= i < 64 implies is_hex_digit(#[trigger] text[i]) by {
        let chunk = text.subrange(16 * (i / 16), 16 * (i / 16) + 16);
        assert(all_hex_digits(chunk));
        assert(chunk[i % 16] == text[i]);
    }
    assert(is_hex_digit(text[1]));
    assert(without_prefix(text) == text);
    vstd::arithmetic::div_mod::lemma_small_mod(x.0[3] as nat, pow2(64));
    vstd::arithmetic::div_mod::lemma_small_mod(x.0[2] as nat, pow2(64));
    vstd::arithmetic::div_mod::lemma_small_mod(x.0[1] as nat, pow2(64));
    vstd::arithmetic::div_mod::lemma_small_mod(x.0[0] as nat, pow2(64));
    assert(parse_hex(text)->Ok_0.0 =~= x.0);
}

} // verus!

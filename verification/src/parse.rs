//! Hexadecimal parsing: 64 hexadecimal digits, most significant first, with
//! an optional leading `0x`, read as four chunks of 16 digits.

use crate::error::ParseError;
use crate::uint256::Uint256;
use vstd::arithmetic::power2::{lemma2_to64, lemma2_to64_rest, lemma_pow2_adds, pow2};
use vstd::prelude::*;
use vstd::string::StringSliceAdditionalSpecFns;

verus! {

/// Whether a byte is one of `0`–`9`, `a`–`f`, `A`–`F`.
pub open spec fn is_hex_digit(byte: u8) -> bool {
    ||| 0x30 <= byte <= 0x39
    ||| 0x61 <= byte <= 0x66
    ||| 0x41 <= byte <= 0x46
}

/// The number below 16 that a hexadecimal digit stands for.
pub open spec fn hex_digit_value(byte: u8) -> nat {
    if 0x30 <= byte <= 0x39 {
        (byte - 0x30) as nat
    } else if 0x61 <= byte <= 0x66 {
        (byte - 0x61 + 10) as nat
    } else {
        (byte - 0x41 + 10) as nat
    }
}

/// Whether every byte of a text is a hexadecimal digit.
pub open spec fn all_hex_digits(text: Seq<u8>) -> bool {
    forall|i: int| 0 <= i < text.len() ==> is_hex_digit(#[trigger] text[i])
}

/// The number that a text of hexadecimal digits denotes, most significant
/// digit first.
pub open spec fn hex_value(text: Seq<u8>) -> nat
    decreases text.len(),
{
    if text.len() == 0 {
        0
    } else {
        16 * hex_value(text.drop_last()) + hex_digit_value(text.last())
    }
}

/// The text without one leading `0x`, if it has one.
pub open spec fn without_prefix(text: Seq<u8>) -> Seq<u8> {
    if text.len() >= 2 && text[0] == 0x30 && text[1] == 0x78 {
        text.skip(2)
    } else {
        text
    }
}

/// What parsing a text gives. After one optional leading `0x` the text must
/// be exactly 64 bytes, all of them hexadecimal digits. The rightmost 16
/// digits are the least significant limb, the leftmost 16 the most
/// significant.
pub open spec fn parse_hex(text: Seq<u8>) -> Result<Uint256, ParseError> {
    let body = without_prefix(text);
    if body.len() != 64 {
        Err(ParseError::InvalidLength)
    } else if !all_hex_digits(body) {
        Err(ParseError::InvalidHexDigit)
    } else {
        Ok(
            Uint256(
                [
                    hex_value(body.subrange(48, 64)) as u64,
                    hex_value(body.subrange(32, 48)) as u64,
                    hex_value(body.subrange(16, 32)) as u64,
                    hex_value(body.subrange(0, 16)) as u64,
                ],
            ),
        )
    }
}

/// A text of `n` hexadecimal digits denotes a number below 16^n.
pub proof fn lemma_hex_value_bound(text: Seq<u8>)
    requires
        all_hex_digits(text),
    ensures
        hex_value(text) < pow2(4 * text.len()),
    decreases text.len(),
{
    lemma2_to64();
    if text.len() > 0 {
        let front = text.drop_last();
        assert(is_hex_digit(text[text.len() - 1]));
        assert forall|i: int| 0 <= i < front.len() implies is_hex_digit(#[trigger] front[i]) by {
            assert(front[i] == text[i]);
        }
        lemma_hex_value_bound(front);
        lemma_pow2_adds(4 * front.len(), 4);
    }
}

/// The number a single hexadecimal digit stands for, if the byte is one.
fn hex_digit(byte: u8) -> (digit: Option<u8>)
    ensures
        digit is Some <==> is_hex_digit(byte),
        digit matches Some(d) ==> d == hex_digit_value(byte),
{
    if 0x30 <= byte && byte <= 0x39 {
        Some(byte - 0x30)
    } else if 0x61 <= byte && byte <= 0x66 {
        Some(byte - 0x61 + 10)
    } else if 0x41 <= byte && byte <= 0x46 {
        Some(byte - 0x41 + 10)
    } else {
        None
    }
}

/// Reads the 16 bytes from `start` as one limb, if all of them are
/// hexadecimal digits.
fn parse_limb(text: &[u8], start: usize) -> (limb: Option<u64>)
    requires
        start + 16 <= text.len(),
    ensures
        limb is Some <==> all_hex_digits(text@.subrange(start as int, start + 16)),
        limb matches Some(v) ==> v == hex_value(text@.subrange(start as int, start + 16)),
{
    let ghost chunk = text@.subrange(start as int, start + 16);
    let mut value: u64 = 0;
    let mut i: usize = 0;
    proof {
        lemma2_to64();
    }
    while i < 16
        invariant
            i <= 16,
            start + 16 <= text.len(),
            chunk == text@.subrange(start as int, start + 16),
            all_hex_digits(chunk.subrange(0, i as int)),
            value == hex_value(chunk.subrange(0, i as int)),
        decreases 16 - i,
    {
        let byte = text[start + i];
        let ghost read = chunk.subrange(0, i as int);
        let ghost next = chunk.subrange(0, i + 1);
        assert(chunk[i as int] == byte);
        match hex_digit(byte) {
            Some(digit) => {
                proof {
                    assert(next.drop_last() =~= read);
                    assert forall|k: int| 0 <= k < next.len() implies is_hex_digit(
                        #[trigger] next[k],
                    ) by {
                        if k < i {
                            assert(next[k] == read[k]);
                        }
                    }
                    lemma_hex_value_bound(next);
                    lemma2_to64_rest();
                    if i < 15 {
                        lemma_pow2_adds(4 * (i + 1) as nat, (60 - 4 * i) as nat);
                        lemma_pow2_pos_product(4 * (i + 1) as nat, (60 - 4 * i) as nat);
                    }
                }
                value = value * 16 + digit as u64;
            },
            None => {
                assert(!is_hex_digit(chunk[i as int]));
                return None;
            },
        }
        i += 1;
    }
    assert(chunk.subrange(0, 16) =~= chunk);
    Some(value)
}

/// A power of two is no larger than a later one.
proof fn lemma_pow2_pos_product(low: nat, more: nat)
    ensures
        pow2(low) <= pow2(low) * pow2(more),
{
    vstd::arithmetic::power2::lemma_pow2_pos(low);
    vstd::arithmetic::power2::lemma_pow2_pos(more);
    let a = pow2(low);
    let b = pow2(more);
    assert(a <= a * b) by (nonlinear_arith)
        requires
            a > 0,
            b > 0,
    ;
}

impl Uint256 {
    /// Parses 64 hexadecimal digits, most significant first, with an optional
    /// leading `0x`. Lengths are counted in bytes of the text's UTF-8 form;
    /// upper and lower case digits are both taken. Nothing is padded or cut:
    /// any other length is `InvalidLength`, and a text of the right length
    /// with any other byte in it is `InvalidHexDigit`.
    pub fn from_hex(hex_str: &str) -> (parsed: Result<Uint256, ParseError>)
        ensures
            parsed == parse_hex(hex_str.spec_bytes()),
    {
        let text = hex_str.as_bytes();
        let start: usize = if text.len() >= 2 && text[0] == 0x30 && text[1] == 0x78 {
            2
        } else {
            0
        };
        let ghost body = without_prefix(text@);
        assert(body =~= text@.subrange(start as int, text.len() as int));
        if text.len() - start != 64 {
            return Err(ParseError::InvalidLength);
        }
        let mut value = Uint256([0, 0, 0, 0]);
        let mut i: usize = 0;
        while i < 4
            invariant
                i <= 4,
                text.len() == start + 64,
                text@ == hex_str.spec_bytes(),
                body == without_prefix(text@),
                body == text@.subrange(start as int, text.len() as int),
                forall|k: int|
                    0 <= k < i ==> all_hex_digits(#[trigger] body.subrange(48 - 16 * k, 64 - 16 * k)),
                forall|k: int|
                    0 <= k < i ==> value.0[k] == hex_value(
                        #[trigger] body.subrange(48 - 16 * k, 64 - 16 * k),
                    ),
            decreases 4 - i,
        {
            let from = start + 48 - 16 * i;
            let ghost chunk = body.subrange(48 - 16 * i, 64 - 16 * i);
            assert(chunk =~= text@.subrange(from as int, from + 16));
            match parse_limb(text, from) {
                Some(limb) => {
                    value.0[i] = limb;
                },
                None => {
                    proof {
                        let at = choose|at: int| 0 <= at < 16 && !is_hex_digit(#[trigger] chunk[at]);
                        assert(!is_hex_digit(body[48 - 16 * i + at]));
                    }
                    return Err(ParseError::InvalidHexDigit);
                },
            }
            i += 1;
        }
        proof {
            assert forall|at: int| 0 <= at < 64 implies is_hex_digit(#[trigger] body[at]) by {
                let k = 3 - at / 16;
                let chunk = body.subrange(48 - 16 * k, 64 - 16 * k);
                assert(all_hex_digits(chunk));
                assert(chunk[at - (48 - 16 * k)] == body[at]);
            }
            assert(body.subrange(48, 64) == body.subrange(48 - 16 * 0, 64 - 16 * 0));
            assert(body.subrange(32, 48) == body.subrange(48 - 16 * 1, 64 - 16 * 1));
            assert(body.subrange(16, 32) == body.subrange(48 - 16 * 2, 64 - 16 * 2));
            assert(body.subrange(0, 16) == body.subrange(48 - 16 * 3, 64 - 16 * 3));
            assert(value.0 =~= parse_hex(text@)->Ok_0.0);
        }
        Ok(value)
    }
}

} // verus!

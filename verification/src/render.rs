//! Textual rendering: the value as 64 lowercase hexadecimal digits, most
//! significant limb first, framed by the type's name.

use crate::uint256::Uint256;
use vstd::prelude::*;
use vstd::string::StringExecFns;

verus! {

/// The lowercase hexadecimal digit for a number below 16.
pub open spec fn hex_char(d: nat) -> char {
    if d < 10 {
        ('0' as nat + d) as char
    } else {
        ('a' as nat + d - 10) as char
    }
}

/// The `width` low hexadecimal digits of `n`, most significant first,
/// padded with zeros on the left.
pub open spec fn hex_digits(n: nat, width: nat) -> Seq<char>
    decreases width,
{
    if width == 0 {
        Seq::empty()
    } else {
        hex_digits(n / 16, (width - 1) as nat).push(hex_char(n % 16))
    }
}

/// The 64 hexadecimal digits of a value: 16 for each limb, the most
/// significant limb first.
pub open spec fn hex_body(x: Uint256) -> Seq<char> {
    hex_digits(x.0[3] as nat, 16) + hex_digits(x.0[2] as nat, 16) + hex_digits(x.0[1] as nat, 16)
        + hex_digits(x.0[0] as nat, 16)
}

/// The debug text of a value: `Uint256(0x`, the 64 digits, `)`.
pub open spec fn debug_text(x: Uint256) -> Seq<char> {
    seq!['U', 'i', 'n', 't', '2', '5', '6', '(', '0', 'x'] + hex_body(x) + seq![')']
}

/// Hexadecimal digits come in their stated number.
pub proof fn lemma_hex_digits_len(n: nat, width: nat)
    ensures
        hex_digits(n, width).len() == width,
    decreases width,
{
    if width > 0 {
        lemma_hex_digits_len(n / 16, (width - 1) as nat);
    }
}

/// The one-character text of a hexadecimal digit.
fn hex_digit_text(d: u8) -> (text: &'static str)
    requires
        d < 16,
    ensures
        text@ == seq![hex_char(d as nat)],
{
    proof {
        reveal_strlit("0");
        reveal_strlit("1");
        reveal_strlit("2");
        reveal_strlit("3");
        reveal_strlit("4");
        reveal_strlit("5");
        reveal_strlit("6");
        reveal_strlit("7");
        reveal_strlit("8");
        reveal_strlit("9");
        reveal_strlit("a");
        reveal_strlit("b");
        reveal_strlit("c");
        reveal_strlit("d");
        reveal_strlit("e");
        reveal_strlit("f");
    }
    let text = match d {
        0 => "0",
        1 => "1",
        2 => "2",
        3 => "3",
        4 => "4",
        5 => "5",
        6 => "6",
        7 => "7",
        8 => "8",
        9 => "9",
        10 => "a",
        11 => "b",
        12 => "c",
        13 => "d",
        14 => "e",
        _ => "f",
    };
    assert(text@ =~= seq![hex_char(d as nat)]);
    text
}

/// The 16 hexadecimal digits of a limb as numbers below 16, most significant first.
fn limb_digits(limb: u64) -> (digits: [u8; 16])
    ensures
        forall|i: int| 0 <= i < 16 ==> digits[i] < 16,
        Seq::new(16, |i: int| hex_char(digits[i] as nat)) == hex_digits(limb as nat, 16),
{
    let mut digits: [u8; 16] = [0; 16];
    let mut rest = limb;
    let mut done: usize = 0;
    while done < 16
        invariant
            done <= 16,
            forall|i: int| 0 <= i < 16 ==> digits[i] < 16,
            hex_digits(limb as nat, 16) == hex_digits(rest as nat, (16 - done) as nat) + Seq::new(
                done as nat,
                |i: int| hex_char(digits[16 - done + i] as nat),
            ),
        decreases 16 - done,
    {
        let ghost before = digits;
        let digit = (rest % 16) as u8;
        digits[15 - done] = digit;
        proof {
            let tail_before = Seq::new(done as nat, |i: int| hex_char(before[16 - done + i] as nat));
            let tail_after = Seq::new(
                (done + 1) as nat,
                |i: int| hex_char(digits[16 - (done + 1) + i] as nat),
            );
            assert(tail_after =~= seq![hex_char(digit as nat)] + tail_before);
            assert(hex_digits(rest as nat, (16 - done) as nat) == hex_digits(
                (rest / 16) as nat,
                (16 - done - 1) as nat,
            ).push(hex_char(digit as nat)));
            assert(hex_digits(rest as nat, (16 - done) as nat) + tail_before =~= hex_digits(
                (rest / 16) as nat,
                (16 - done - 1) as nat,
            ) + tail_after);
        }
        rest = rest / 16;
        done += 1;
    }
    assert(Seq::new(16, |i: int| hex_char(digits[i] as nat)) =~= hex_digits(limb as nat, 16)) by {
        assert(hex_digits(rest as nat, 0) =~= Seq::<char>::empty());
    }
    digits
}

/// Appends the 16 hexadecimal digits of a limb to a text.
fn append_limb(text: &mut String, limb: u64)
    ensures
        final(text)@ == old(text)@ + hex_digits(limb as nat, 16),
{
    let digits = limb_digits(limb);
    let ghost all = Seq::new(16, |i: int| hex_char(digits[i] as nat));
    let mut i: usize = 0;
    while i < 16
        invariant
            i <= 16,
            forall|j: int| 0 <= j < 16 ==> digits[j] < 16,
            all == Seq::new(16, |j: int| hex_char(digits[j] as nat)),
            text@ == old(text)@ + all.subrange(0, i as int),
        decreases 16 - i,
    {
        let digit_text = hex_digit_text(digits[i]);
        let ghost before = text@;
        text.append(digit_text);
        assert(text@ =~= old(text)@ + all.subrange(0, i + 1)) by {
            assert(all.subrange(0, i + 1) =~= all.subrange(0, i as int).push(all[i as int]));
        }
        i += 1;
    }
    assert(all.subrange(0, 16) =~= all);
}

impl Uint256 {
    /// The debug text: `Uint256(0x`, then each limb from the most
    /// significant down as exactly 16 lowercase hexadecimal digits, then `)`.
    pub fn to_debug_string(&self) -> (text: String)
        ensures
            text@ == debug_text(*self),
    {
        proof {
            reveal_strlit("Uint256(0x");
            reveal_strlit(")");
        }
        let mut text = String::from_str("Uint256(0x");
        assert(text@ =~= seq!['U', 'i', 'n', 't', '2', '5', '6', '(', '0', 'x']);
        append_limb(&mut text, self.0[3]);
        append_limb(&mut text, self.0[2]);
        append_limb(&mut text, self.0[1]);
        append_limb(&mut text, self.0[0]);
        text.append(")");
        assert(text@ =~= debug_text(*self));
        text
    }
}

/// The formatter of the standard library, carried through and never read.
#[verifier::external_type_specification]
#[verifier::external_body]
pub struct ExFormatter<'a>(core::fmt::Formatter<'a>);

/// The error of the standard library's formatting, carried through and never read.
#[verifier::external_type_specification]
#[verifier::external_body]
pub struct ExFmtError(core::fmt::Error);

/// `Formatter::write_str` of the standard library hands a text to the
/// formatter's sink and reports whether the sink took it. Nothing is claimed
/// of what the sink does with the text, nor of the report.
pub assume_specification<'a>[ core::fmt::Formatter::<'a>::write_str ](
    f: &mut core::fmt::Formatter<'a>,
    data: &str,
) -> core::fmt::Result;

impl core::fmt::Debug for Uint256 {
    /// Writes the text of `to_debug_string` to the formatter and hands on
    /// what the formatter reports.
    fn fmt(&self, f: &mut core::fmt::Formatter<'_>) -> core::fmt::Result {
        let text = self.to_debug_string();
        f.write_str(text.as_str())
    }
}

} // verus!

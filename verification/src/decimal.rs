//! Decimal numerals: reading a run of digits as a number and writing a
//! number as digits.

use crate::text::{all_digits, ascii_text, is_digit, ZERO};
use vstd::prelude::*;
use vstd::string::*;

verus! {

/// The number that the digit `byte` stands for.
pub open spec fn digit_value(byte: u8) -> nat {
    if is_digit(byte) {
        (byte - ZERO) as nat
    } else {
        0
    }
}

/// The number that the digits `digits` spell in base ten; zero for no digits.
pub open spec fn decimal_value(digits: Seq<u8>) -> nat
    decreases digits.len(),
{
    if digits.len() == 0 {
        0
    } else {
        decimal_value(digits.drop_last()) * 10 + digit_value(digits.last())
    }
}

/// The number a captured run of digits is read as: what the digits spell
/// where that fits a `usize`, and zero otherwise. No digits read as zero.
pub open spec fn number_of(digits: Seq<u8>) -> nat {
    if decimal_value(digits) <= usize::MAX {
        decimal_value(digits)
    } else {
        0
    }
}

/// The digits of `n` in base ten, most significant first, without leading
/// zeros; the single digit `0` for zero.
pub open spec fn decimal_digits(n: nat) -> Seq<u8>
    decreases n,
{
    if n < 10 {
        seq![(ZERO + n) as u8]
    } else {
        decimal_digits(n / 10).push((ZERO + n % 10) as u8)
    }
}

/// Whether `digits` is a numeral as the grammar writes numbers: `0`, or a
/// run of digits that does not begin with `0`.
pub open spec fn is_numeral(digits: Seq<u8>) -> bool {
    &&& digits.len() > 0
    &&& all_digits(digits)
    &&& digits.len() > 1 ==> digits[0] != ZERO
}

/// A longer run of digits spells no smaller a number than its beginning.
pub proof fn lemma_decimal_value_grows(digits: Seq<u8>, n: int)
    requires
        0 <= n <= digits.len(),
    ensures
        decimal_value(digits.take(n)) <= decimal_value(digits),
    decreases digits.len() - n,
{
    if n == digits.len() {
        assert(digits.take(n) =~= digits);
    } else {
        lemma_decimal_value_grows(digits.drop_last(), n);
        assert(digits.drop_last().take(n) =~= digits.take(n));
    }
}

/// The digits of a number form a numeral.
pub proof fn lemma_decimal_digits_form_numeral(n: nat)
    ensures
        is_numeral(decimal_digits(n)),
        n < 10 ==> decimal_digits(n).len() == 1,
        n > 0 ==> decimal_digits(n)[0] != ZERO,
    decreases n,
{
    if n >= 10 {
        lemma_decimal_digits_form_numeral(n / 10);
    }
}

/// Reading the digits of a number gives the number back.
pub proof fn lemma_value_of_decimal_digits(n: nat)
    ensures
        decimal_value(decimal_digits(n)) == n,
    decreases n,
{
    let digits = decimal_digits(n);
    if n < 10 {
        assert(digits.drop_last() =~= Seq::<u8>::empty());
        assert(decimal_value(digits.drop_last()) == 0);
    } else {
        lemma_value_of_decimal_digits(n / 10);
        assert(digits.drop_last() =~= decimal_digits(n / 10));
    }
}

/// A numeral that does not begin with `0` spells a positive number.
pub proof fn lemma_numeral_is_positive(digits: Seq<u8>)
    requires
        is_numeral(digits),
        digits[0] != ZERO,
    ensures
        decimal_value(digits) >= 1,
        digits.len() > 1 ==> decimal_value(digits) >= 10,
    decreases digits.len(),
{
    if digits.len() == 1 {
        assert(digits.drop_last() =~= Seq::<u8>::empty());
        assert(decimal_value(digits.drop_last()) == 0);
    } else {
        lemma_numeral_is_positive(digits.drop_last());
    }
}

/// Writing the number that a numeral spells gives the numeral back.
pub proof fn lemma_decimal_digits_of_value(digits: Seq<u8>)
    requires
        is_numeral(digits),
    ensures
        decimal_digits(decimal_value(digits)) == digits,
    decreases digits.len(),
{
    let front = digits.drop_last();
    if digits.len() == 1 {
        assert(front =~= Seq::<u8>::empty());
        assert(decimal_value(front) == 0);
        assert(decimal_digits(decimal_value(digits)) =~= digits);
    } else {
        lemma_numeral_is_positive(front);
        lemma_decimal_digits_of_value(front);
        let n = decimal_value(digits);
        assert(n / 10 == decimal_value(front));
        assert(n % 10 == digit_value(digits.last()));
        assert(decimal_digits(n) =~= digits);
    }
}

/// Reads a run of digits as the reader of versions does: as the number it
/// spells, or as zero where there is no digit or the number does not fit.
pub fn read_number(digits: &[u8]) -> (r: usize)
    requires
        all_digits(digits@),
    ensures
        r == number_of(digits@),
{
    let mut value: usize = 0;
    let mut i: usize = 0;
    while i < digits.len()
        invariant
            i <= digits.len(),
            all_digits(digits@),
            value == decimal_value(digits@.take(i as int)),
        decreases digits.len() - i,
    {
        let digit: usize = (digits[i] - ZERO) as usize;
        proof {
            assert(digits@.take(i + 1).drop_last() =~= digits@.take(i as int));
            lemma_decimal_value_grows(digits@, i + 1);
        }
        let shifted: usize = match value.checked_mul(10) {
            Some(shifted) => shifted,
            None => {
                return 0;
            },
        };
        value =
        match shifted.checked_add(digit) {
            Some(longer) => longer,
            None => {
                return 0;
            },
        };
        i += 1;
    }
    proof {
        assert(digits@.take(i as int) =~= digits@);
    }
    value
}

/// The one-character text of the digit `digit`.
fn digit_text(digit: u8) -> (r: &'static str)
    requires
        digit < 10,
    ensures
        r@ == seq![(ZERO + digit) as char],
{
    proof {
        reveal_strlit("0");
        reveal_strlit("1");
        reveal_strlit("2");
        reveal_strlit("3");
        reveal_strlit("4");
        reveal_strlit("5");
        reveal_strlit("6");
        reveal_strlit("7");
        reveal_strlit("8");
        reveal_strlit("9");
    }
    let text = match digit {
        0 => "0",
        1 => "1",
        2 => "2",
        3 => "3",
        4 => "4",
        5 => "5",
        6 => "6",
        7 => "7",
        8 => "8",
        _ => "9",
    };
    assert(text@ =~= seq![(ZERO + digit) as char]);
    text
}

/// Appends the decimal digits of `n` to `out`.
pub fn push_decimal(out: &mut String, n: usize)
    ensures
        final(out)@ == old(out)@ + ascii_text(decimal_digits(n as nat)),
    decreases n,
{
    if n >= 10 {
        push_decimal(out, n / 10);
    }
    let last: u8 = (n % 10) as u8;
    out.append(digit_text(last));
    proof {
        let digits = decimal_digits(n as nat);
        if n >= 10 {
            assert(ascii_text(digits) =~= ascii_text(decimal_digits((n / 10) as nat)) + seq![
                (ZERO + last) as char,
            ]);
        } else {
            assert(ascii_text(digits) =~= seq![(ZERO + last) as char]);
        }
    }
}

} // verus!

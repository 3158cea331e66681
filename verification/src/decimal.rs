//! Integers in decimal notation.

use vstd::arithmetic::div_mod::*;
use vstd::arithmetic::power::*;
use vstd::prelude::*;
use vstd::string::*;

verus! {

/// The character that stands for a digit.
pub open spec fn digit(value: nat) -> char {
    (48 + value) as char
}

/// A number in decimal notation, without leading zeros.
pub open spec fn decimal(number: nat) -> Seq<char>
    decreases number,
{
    if number < 10 {
        seq![digit(number)]
    } else {
        decimal(number / 10).push(digit(number % 10))
    }
}

/// An integer in decimal notation, with a minus sign where it is negative.
pub open spec fn signed_decimal(number: int) -> Seq<char> {
    if number < 0 {
        seq!['-'] + decimal((-number) as nat)
    } else {
        decimal(number as nat)
    }
}

/// The number that a sequence of digits stands for.
pub open spec fn number_of(digits: Seq<char>) -> nat
    decreases digits.len(),
{
    if digits.len() == 0 {
        0
    } else {
        number_of(digits.drop_last()) * 10 + (digits.last() as nat - 48) as nat
    }
}

/// Whether a text is made of decimal digits only.
pub open spec fn is_digits(text: Seq<char>) -> bool {
    forall|i: int| 0 <= i < text.len() ==> '0' <= #[trigger] text[i] <= '9'
}

/// A number written in decimal reads as the same number.
pub proof fn decimal_reads_back(number: nat)
    ensures
        decimal(number).len() > 0,
        is_digits(decimal(number)),
        number_of(decimal(number)) == number,
    decreases number,
{
    if number < 10 {
        assert(decimal(number).drop_last() =~= Seq::<char>::empty());
        reveal_with_fuel(number_of, 2);
    } else {
        decimal_reads_back(number / 10);
        assert(decimal(number).drop_last() =~= decimal(number / 10));
    }
}

fn digit_text(value: u64) -> (text: &'static str)
    requires
        value < 10,
    ensures
        text@ == seq![digit(value as nat)],
{
    proof {
        reveal_strlit("0");
        reveal_strlit("1");
        reveal_strlit("2");
        reveal_strlit("3");
        reveal_strlit("4");
        reveal_strlit("5");
        reveal_strlit("6");
        reveal_strlit("7");
        reveal_strlit("8");
        reveal_strlit("9");
    }
    match value {
        0 => "0",
        1 => "1",
        2 => "2",
        3 => "3",
        4 => "4",
        5 => "5",
        6 => "6",
        7 => "7",
        8 => "8",
        _ => "9",
    }
}

/// Writes a number in decimal notation.
pub fn decimal_text(number: u64) -> (text: String)
    ensures
        text@ == decimal(number as nat),
    decreases number,
{
    if number < 10 {
        digit_text(number).to_string()
    } else {
        let mut text = decimal_text(number / 10);
        text.append(digit_text(number % 10));
        text
    }
}

/// The digits of a number are those of its powers of ten, the highest first, and no
/// number but zero starts with a zero.
pub proof fn digits_are_those_of_the_number(number: nat)
    ensures
        decimal(number).len() > 0,
        number < pow(10, decimal(number).len()),
        decimal(number).len() > 1 ==> pow(10, (decimal(number).len() - 1) as nat) <= number,
        forall|i: int|
            0 <= i < decimal(number).len() ==> #[trigger] decimal(number)[i] as int == 48 + (number
                as int / pow(10, (decimal(number).len() - 1 - i) as nat)) % 10,
    decreases number,
{
    reveal(pow);
    let text = decimal(number);
    if number < 10 {
        lemma_pow1(10);
        lemma_pow0(10);
        assert forall|i: int| 0 <= i < text.len() implies #[trigger] text[i] as int == 48 + (number
            as int / pow(10, (text.len() - 1 - i) as nat)) % 10 by {
            assert(text[i] as int == 48 + number);
            assert(number as int / pow(10, 0) == number as int / 1);
        }
    } else {
        let tenth = number / 10;
        let shorter = decimal(tenth);
        digits_are_those_of_the_number(tenth);
        let length = shorter.len();
        assert(text.len() == length + 1);
        assert(pow(10, length + 1) == 10 * pow(10, length));
        assert(pow(10, length) == 10 * pow(10, (length - 1) as nat));
        lemma_pow0(10);
        assert forall|i: int| 0 <= i < text.len() implies #[trigger] text[i] as int == 48 + (number
            as int / pow(10, (text.len() - 1 - i) as nat)) % 10 by {
            if i < length {
                let power = pow(10, (length - 1 - i) as nat);
                lemma_pow_positive(10, (length - 1 - i) as nat);
                assert(pow(10, (length - i) as nat) == 10 * power);
                lemma_div_denominator(number as int, 10, power);
                assert(text[i] == shorter[i]);
            } else {
                assert(text[i] as int == 48 + number % 10);
            }
        }
    }
}

/// Digits are read from the left: each one more makes ten times the number and adds its
/// value.
pub proof fn each_digit_makes_ten_times_more(digits: Seq<char>, next: char)
    requires
        '0' <= next <= '9',
    ensures
        number_of(Seq::<char>::empty()) == 0,
        number_of(digits.push(next)) == 10 * number_of(digits) + (next as int - '0' as int),
{
    assert(digits.push(next).drop_last() =~= digits);
}

/// The text of a number has its digits.
pub proof fn text_has_the_digits_of_the_number(number: u64, text: String)
    requires
        call_ensures(decimal_text, (number,), text),
    ensures
        text@.len() > 0,
        number < pow(10, text@.len()),
        text@.len() > 1 ==> pow(10, (text@.len() - 1) as nat) <= number,
        forall|i: int|
            0 <= i < text@.len() ==> #[trigger] text@[i] as int == 48 + (number as int / pow(
                10,
                (text@.len() - 1 - i) as nat,
            )) % 10,
{
    digits_are_those_of_the_number(number as nat);
}

} // verus!

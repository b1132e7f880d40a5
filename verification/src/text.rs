//! Text that goes into header values.

use vstd::prelude::*;
use vstd::string::StringExecFns;

verus! {

/// The character that stands for a decimal digit.
pub open spec fn digit_char(digit: nat) -> char {
    if digit == 0 {
        '0'
    } else if digit == 1 {
        '1'
    } else if digit == 2 {
        '2'
    } else if digit == 3 {
        '3'
    } else if digit == 4 {
        '4'
    } else if digit == 5 {
        '5'
    } else if digit == 6 {
        '6'
    } else if digit == 7 {
        '7'
    } else if digit == 8 {
        '8'
    } else {
        '9'
    }
}

/// The decimal form of a number: its digits from the most significant to the least,
/// without sign and without leading zeros. The decimal form of 0 is `0`.
pub open spec fn decimal_digits(n: nat) -> Seq<char>
    decreases n,
{
    if n < 10 {
        seq![digit_char(n)]
    } else {
        decimal_digits(n / 10).push(digit_char(n % 10))
    }
}

/// The text of one decimal digit.
fn digit(d: u64) -> (text: &'static str)
    requires
        d < 10,
    ensures
        text@ == seq![digit_char(d as nat)],
{
    proof {
        reveal_strlit("0");
        reveal_strlit("1");
        reveal_strlit("2");
        reveal_strlit("3");
        reveal_strlit("4");
        reveal_strlit("5");
        reveal_strlit("6");
        reveal_strlit("7");
        reveal_strlit("8");
        reveal_strlit("9");
    }
    let text = match d {
        0 => "0",
        1 => "1",
        2 => "2",
        3 => "3",
        4 => "4",
        5 => "5",
        6 => "6",
        7 => "7",
        8 => "8",
        _ => "9",
    };
    assert(text@ =~= seq![digit_char(d as nat)]);
    text
}

/// The digits of `n` from the least significant to the most.
spec fn digits_reversed(n: nat) -> Seq<char>
    decreases n,
{
    if n < 10 {
        seq![digit_char(n)]
    } else {
        seq![digit_char(n % 10)] + digits_reversed(n / 10)
    }
}

proof fn lemma_digits_reversed(n: nat)
    ensures
        digits_reversed(n) == decimal_digits(n).reverse(),
    decreases n,
{
    if n < 10 {
        assert(digits_reversed(n) =~= decimal_digits(n).reverse());
    } else {
        lemma_digits_reversed(n / 10);
        assert(digits_reversed(n) =~= decimal_digits(n).reverse());
    }
}

/// The decimal form of `n`.
pub fn decimal(n: u64) -> (text: String)
    ensures
        text@ == decimal_digits(n as nat),
{
    let mut reversed: Vec<&'static str> = Vec::new();
    let mut rest = n;
    let ghost mut taken: Seq<char> = Seq::empty();
    while rest >= 10
        invariant
            digits_reversed(n as nat) == taken + digits_reversed(rest as nat),
            taken.len() == reversed@.len(),
            forall|j: int| 0 <= j < reversed@.len() ==> (#[trigger] reversed@[j])@ == seq![taken[j]],
        decreases rest,
    {
        reversed.push(digit(rest % 10));
        proof {
            taken = taken.push(digit_char((rest % 10) as nat));
            assert(digits_reversed(n as nat) =~= taken + digits_reversed((rest / 10) as nat));
        }
        rest = rest / 10;
    }
    reversed.push(digit(rest));
    proof {
        taken = taken.push(digit_char(rest as nat));
        assert(taken =~= digits_reversed(n as nat));
        lemma_digits_reversed(n as nat);
        assert(decimal_digits(n as nat).reverse().reverse() =~= decimal_digits(n as nat));
    }
    let mut text = String::new();
    let mut i = reversed.len();
    while i > 0
        invariant
            i <= reversed@.len(),
            taken.len() == reversed@.len(),
            taken == decimal_digits(n as nat).reverse(),
            forall|j: int| 0 <= j < reversed@.len() ==> (#[trigger] reversed@[j])@ == seq![taken[j]],
            text@ == decimal_digits(n as nat).subrange(0, reversed@.len() - i),
        decreases i,
    {
        i -= 1;
        text.append(reversed[i]);
        assert(text@ =~= decimal_digits(n as nat).subrange(0, reversed@.len() - i));
    }
    assert(text@ =~= decimal_digits(n as nat));
    text
}

} // verus!

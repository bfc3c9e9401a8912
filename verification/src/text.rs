//! Building the text of a message.
//!
//! `number_text` and `concat` hand the work to std's `format!` and are not proved;
//! their contracts say what std documents. The rest is proved from them.

use vstd::prelude::*;

verus! {

/// The character of a digit below ten.
pub open spec fn digit(d: nat) -> char {
    if d == 0 {
        '0'
    } else if d == 1 {
        '1'
    } else if d == 2 {
        '2'
    } else if d == 3 {
        '3'
    } else if d == 4 {
        '4'
    } else if d == 5 {
        '5'
    } else if d == 6 {
        '6'
    } else if d == 7 {
        '7'
    } else if d == 8 {
        '8'
    } else {
        '9'
    }
}

/// `n` in decimal digits, without sign or leading zeros.
pub open spec fn decimal(n: nat) -> Seq<char>
    decreases n,
{
    if n < 10 {
        seq![digit(n)]
    } else {
        decimal(n / 10).push(digit(n % 10))
    }
}

/// `format!` with `{}` on a `u64`: the decimal digits of `n`.
#[verifier::external_body]
pub(crate) fn number_text(n: u64) -> (r: String)
    ensures
        r@ == decimal(n as nat),
{
    format!("{}", n)
}

/// `format!` with `{}{}` on two `&str`: the characters of `a`, then those of `b`.
#[verifier::external_body]
pub(crate) fn concat(a: &str, b: &str) -> (r: String)
    ensures
        r@ == a@ + b@,
{
    format!("{}{}", a, b)
}

/// `head`, then `a` in decimal, then `tail`.
pub fn around_number(head: &str, a: u64, tail: &str) -> (r: String)
    ensures
        r@ == head@ + decimal(a as nat) + tail@,
{
    let number = number_text(a);
    let front = concat(head, number.as_str());
    concat(front.as_str(), tail)
}

/// `head`, `a` in decimal, `middle`, `b` in decimal, `tail`.
pub fn around_two_numbers(head: &str, a: u64, middle: &str, b: u64, tail: &str) -> (r: String)
    ensures
        r@ == head@ + decimal(a as nat) + middle@ + decimal(b as nat) + tail@,
{
    let front = around_number(head, a, middle);
    let back = around_number("", b, tail);
    proof {
        reveal_strlit("");
        assert(""@ + decimal(b as nat) =~= decimal(b as nat));
        assert(front@ + back@ =~= head@ + decimal(a as nat) + middle@ + decimal(b as nat)
            + tail@);
    }
    concat(front.as_str(), back.as_str())
}

} // verus!

//! Numbers as text.

use vstd::arithmetic::div_mod::lemma_div_denominator;
use vstd::arithmetic::power::{lemma_pow0, lemma_pow1, lemma_pow_positive, pow};
use vstd::prelude::*;

verus! {

/// The digit that stands for `n`.
pub open spec fn digit(n: nat) -> char {
    (n + '0' as nat) as char
}

/// `n` in decimal, without leading zeros.
pub open spec fn decimal(n: nat) -> Seq<char>
    decreases n,
{
    if n < 10 {
        seq![digit(n)]
    } else {
        decimal(n / 10).push(digit(n % 10))
    }
}

/// The number that a row of digits stands for, each worth ten times what it
/// would be worth one place to the right.
pub open spec fn number_of(digits: Seq<char>) -> int
    decreases digits.len(),
{
    if digits.len() == 0 {
        0
    } else {
        10 * number_of(digits.drop_last()) + (digits.last() as int - '0' as int)
    }
}

/// Reading the decimal text of a number gives the number back. The text is made
/// of digits alone, and starts with a zero only for zero.
pub proof fn law_decimal_reads_back(n: nat)
    ensures
        number_of(decimal(n)) == n,
        decimal(n).len() > 0,
        forall|k: int|
            0 <= k < decimal(n).len() ==> '0' as int <= (#[trigger] decimal(n)[k]) as int
                && decimal(n)[k] as int <= '9' as int,
        decimal(n)[0] == '0' <==> n == 0,
    decreases n,
{
    if n < 10 {
        assert(number_of(decimal(n).drop_last()) == 0);
    } else {
        law_decimal_reads_back(n / 10);
        assert(decimal(n).drop_last() =~= decimal(n / 10));
        assert(decimal(n)[0] == decimal(n / 10)[0]);
    }
}

/// The decimal text of a number has the digit of each power of ten in its place,
/// counted from the right, and as many digits as the number needs.
pub proof fn law_decimal_places(n: nat)
    ensures
        n < pow(10, decimal(n).len()),
        n > 0 ==> pow(10, (decimal(n).len() - 1) as nat) <= n,
        n == 0 ==> decimal(n).len() == 1,
        forall|k: nat|
            k < decimal(n).len() ==> (#[trigger] decimal(n)[decimal(n).len() - 1 - k]) as int
                - '0' as int == n as int / pow(10, k) % 10,
    decreases n,
{
    reveal(pow);
    let text = decimal(n);
    if n < 10 {
        lemma_pow0(10);
        lemma_pow1(10);
    } else {
        let m = n / 10;
        let shorter = decimal(m);
        law_decimal_places(m);
        assert(text.len() == shorter.len() + 1);
        assert(pow(10, text.len()) == 10 * pow(10, shorter.len()));
        assert(shorter.len() > 0) by {
            law_decimal_reads_back(m);
        }
        assert(pow(10, shorter.len()) == 10 * pow(10, (shorter.len() - 1) as nat));
        assert forall|k: nat| k < text.len() implies (#[trigger] text[text.len() - 1 - k]) as int
            - '0' as int == n as int / pow(10, k) % 10 by {
            if k == 0 {
                lemma_pow0(10);
            } else {
                let j = (k - 1) as nat;
                assert(text[text.len() - 1 - k] == shorter[shorter.len() - 1 - j]);
                assert(pow(10, k) == 10 * pow(10, j));
                lemma_pow_positive(10, j);
                lemma_div_denominator(n as int, 10, pow(10, j));
                assert(n as int / pow(10, k) == m as int / pow(10, j));
            }
        }
    }
}

/// No two numbers have the same text, whatever the same words it stands between.
pub proof fn law_decimal_tells_numbers_apart(
    a: nat,
    b: nat,
    front: Seq<char>,
    back: Seq<char>,
)
    requires
        front + decimal(a) + back == front + decimal(b) + back,
    ensures
        a == b,
{
    let one = front + decimal(a) + back;
    let other = front + decimal(b) + back;
    assert(one.len() == front.len() + decimal(a).len() + back.len());
    assert(other.len() == front.len() + decimal(b).len() + back.len());
    assert forall|k: int| 0 <= k < decimal(a).len() implies decimal(a)[k] == decimal(b)[k] by {
        assert(one[front.len() + k] == decimal(a)[k]);
        assert(other[front.len() + k] == decimal(b)[k]);
    }
    assert(decimal(a) =~= decimal(b));
    law_decimal_reads_back(a);
    law_decimal_reads_back(b);
}

/// Writes a number below ten.
fn digit_text(n: usize) -> (text: &'static str)
    requires
        n < 10,
    ensures
        text@ == seq![digit(n as nat)],
{
    proof {
        reveal_strlit("0");
        reveal_strlit("1");
        reveal_strlit("2");
        reveal_strlit("3");
        reveal_strlit("4");
        reveal_strlit("5");
        reveal_strlit("6");
        reveal_strlit("7");
        reveal_strlit("8");
        reveal_strlit("9");
    }
    match n {
        0 => "0",
        1 => "1",
        2 => "2",
        3 => "3",
        4 => "4",
        5 => "5",
        6 => "6",
        7 => "7",
        8 => "8",
        _ => "9",
    }
}

/// Writes `n` in decimal.
pub fn decimal_text(n: usize) -> (text: String)
    ensures
        text@ == decimal(n as nat),
        number_of(text@) == n,
    decreases n,
{
    proof {
        law_decimal_reads_back(n as nat);
    }
    if n < 10 {
        let digit: &str = digit_text(n);
        digit.to_owned()
    } else {
        let mut text: String = decimal_text(n / 10);
        text.append(digit_text(n % 10));
        text
    }
}

} // verus!

//! Decimal notation of integers.

use vstd::prelude::*;

verus! {

/// The character for a single decimal digit `d`, where `d < 10`.
pub open spec fn digit_char(d: nat) -> char {
    ('0' as nat + d) as char
}

/// Whether `c` is one of the ten decimal digits.
pub open spec fn is_digit(c: char) -> bool {
    '0' as nat <= c as nat <= '9' as nat
}

/// The decimal digits of `n`, most significant first, without leading zeros
/// (zero itself is the single digit `0`).
pub open spec fn decimal_digits(n: nat) -> Seq<char>
    decreases n,
{
    if n < 10 {
        seq![digit_char(n)]
    } else {
        decimal_digits(n / 10).push(digit_char(n % 10))
    }
}

/// The decimal notation of `i`: its digits, after a `-` if it is negative.
pub open spec fn decimal(i: int) -> Seq<char> {
    if i < 0 {
        seq!['-'] + decimal_digits((-i) as nat)
    } else {
        decimal_digits(i as nat)
    }
}

/// The number that a sequence of decimal digits stands for.
pub open spec fn digits_value(digits: Seq<char>) -> nat
    decreases digits.len(),
{
    if digits.len() == 0 {
        0
    } else {
        (10 * digits_value(digits.drop_last()) + (digits.last() as nat - '0' as nat)) as nat
    }
}

/// Appends the decimal digits of `n` to `out`.
fn push_digits(n: u64, out: &mut String)
    ensures
        final(out)@ == old(out)@ + decimal_digits(n as nat),
    decreases n,
{
    if n >= 10 {
        push_digits(n / 10, out);
    }
    out.push(('0' as u8 + (n % 10) as u8) as char);
}

/// Appends the decimal notation of `value` to `out`.
pub fn push_decimal(value: i64, out: &mut String)
    ensures
        final(out)@ == old(out)@ + decimal(value as int),
{
    if value < 0 {
        out.push('-');
        // `-value` does not fit for the least value, so negate one less.
        let magnitude: u64 = (-(value + 1)) as u64 + 1;
        push_digits(magnitude, out);
    } else {
        push_digits(value as u64, out);
    }
}

/// What holds of the digits of every number: there is at least one, each
/// is one of `0` to `9`, the first is `0` for zero alone, and together they
/// stand for the number.
pub proof fn lemma_decimal_digits(n: nat)
    ensures
        decimal_digits(n).len() >= 1,
        forall|i: int|
            0 <= i < decimal_digits(n).len() ==> is_digit(#[trigger] decimal_digits(n)[i]),
        decimal_digits(n)[0] == '0' <==> n == 0,
        digits_value(decimal_digits(n)) == n,
    decreases n,
{
    let digits = decimal_digits(n);
    if n < 10 {
        assert(digits.drop_last() =~= Seq::empty());
        assert(digits_value(digits.drop_last()) == 0);
    } else {
        lemma_decimal_digits(n / 10);
        assert(digits.drop_last() =~= decimal_digits(n / 10));
        assert(digits.last() == digit_char(n % 10));
    }
}

/// Two numbers with the same decimal notation are the same number.
pub proof fn lemma_decimal_injective(a: int, b: int)
    requires
        decimal(a) == decimal(b),
    ensures
        a == b,
{
    let minus = seq!['-'];
    lemma_decimal_digits(if a < 0 { (-a) as nat } else { a as nat });
    lemma_decimal_digits(if b < 0 { (-b) as nat } else { b as nat });
    assert(!is_digit('-'));
    if a < 0 {
        assert(decimal(a)[0] == '-');
        assert(b < 0);
        let digits_a = decimal_digits((-a) as nat);
        let digits_b = decimal_digits((-b) as nat);
        assert((minus + digits_a).drop_first() =~= digits_a);
        assert((minus + digits_b).drop_first() =~= digits_b);
    } else {
        assert(is_digit(decimal(a)[0]));
        if b < 0 {
            assert(decimal(b)[0] == '-');
        }
    }
}

} // verus!

//! Building character strings: decimal numbers and appending to `String`s.

use vstd::prelude::*;

verus! {

/// Appends one character to `s`.
///
/// Trusted: `String::push`, which std documents as appending the given
/// `char` to the end of the string.
#[verifier::external_body]
pub fn push_char(s: &mut String, c: char)
    ensures
        final(s)@ == old(s)@.push(c),
{
    s.push(c)
}

/// The decimal digit character for `d < 10`.
pub open spec fn digit_char(d: nat) -> char {
    (48 + d) as char
}

/// Decimal representation of a natural number, without leading zeros.
pub open spec fn decimal(n: nat) -> Seq<char>
    decreases n,
{
    if n < 10 {
        seq![digit_char(n)]
    } else {
        decimal(n / 10).push(digit_char(n % 10))
    }
}

/// Decimal representation of an integer, with a leading `-` when negative.
pub open spec fn signed_decimal(i: int) -> Seq<char> {
    if i < 0 {
        seq!['-'] + decimal((-i) as nat)
    } else {
        decimal(i as nat)
    }
}

/// Decimal representation zero-padded to at least two digits.
pub open spec fn two_digits(n: nat) -> Seq<char> {
    if n < 10 {
        seq!['0'] + decimal(n)
    } else {
        decimal(n)
    }
}

/// Appends the decimal representation of `n` to `s`.
pub fn push_decimal(s: &mut String, n: u64)
    ensures
        final(s)@ == old(s)@ + decimal(n as nat),
    decreases n,
{
    if n >= 10 {
        push_decimal(s, n / 10);
    }
    let d: u8 = (n % 10) as u8;
    let c: char = (48u8 + d) as char;
    push_char(s, c);
}

/// Appends the decimal representation of `i` to `s`, with a `-` sign when
/// it is negative.
pub fn push_signed_decimal(s: &mut String, i: i32)
    ensures
        final(s)@ == old(s)@ + signed_decimal(i as int),
{
    if i < 0 {
        push_char(s, '-');
        let magnitude: u64 = (0i64 - (i as i64)) as u64;
        push_decimal(s, magnitude);
    } else {
        push_decimal(s, i as u64);
    }
}

/// Appends `n` zero-padded to two digits.
pub fn push_two_digits(s: &mut String, n: u64)
    ensures
        final(s)@ == old(s)@ + two_digits(n as nat),
{
    if n < 10 {
        push_char(s, '0');
    }
    push_decimal(s, n);
}

/// Whether `c` is one of the characters `0` to `9`.
pub open spec fn is_digit(c: char) -> bool {
    48 <= c as u32 <= 57
}

/// The digit character of `d` is a digit, and different digits have
/// different characters.
pub proof fn lemma_digit_char(d: nat, e: nat)
    requires
        d < 10,
        e < 10,
    ensures
        is_digit(digit_char(d)),
        digit_char(d) as u32 == 48 + d,
        digit_char(d) == digit_char(e) ==> d == e,
{
    let x: u32 = (48 + d) as u32;
    let y: u32 = (48 + e) as u32;
    assert((x as char) as u32 == x);
    assert((y as char) as u32 == y);
}

/// A decimal representation is a non-empty run of digits, of one digit
/// exactly for the numbers below ten.
pub proof fn lemma_decimal_digits(n: nat)
    ensures
        decimal(n).len() >= 1,
        decimal(n).len() == 1 <==> n < 10,
        forall|i: int| 0 <= i < decimal(n).len() ==> is_digit(#[trigger] decimal(n)[i]),
    decreases n,
{
    if n < 10 {
        lemma_digit_char(n, n);
    } else {
        lemma_decimal_digits(n / 10);
        lemma_digit_char(n % 10, n % 10);
    }
}

/// Different numbers have different decimal representations.
pub proof fn lemma_decimal_injective(a: nat, b: nat)
    requires
        decimal(a) == decimal(b),
    ensures
        a == b,
    decreases a,
{
    lemma_decimal_digits(a);
    lemma_decimal_digits(b);
    if a < 10 {
        assert(b < 10);
        assert(decimal(a)[0] == decimal(b)[0]);
        assert(decimal(a)[0] == digit_char(a));
        assert(decimal(b)[0] == digit_char(b));
        lemma_digit_char(a, b);
        assert(a == b);
    } else {
        assert(b >= 10);
        let da = decimal(a);
        let db = decimal(b);
        assert(da.drop_last() == decimal(a / 10));
        assert(db.drop_last() == decimal(b / 10));
        lemma_decimal_injective(a / 10, b / 10);
        lemma_digit_char(a % 10, b % 10);
        assert(da.last() == db.last());
        assert(a % 10 == b % 10);
        assert(a / 10 == b / 10);
        assert(a == 10 * (a / 10) + a % 10);
        assert(b == 10 * (b / 10) + b % 10);
        assert(a == b);
    }
}

/// A number below one hundred, zero-padded, is its tens digit followed by
/// its units digit.
pub proof fn lemma_two_digits(n: nat)
    requires
        n < 100,
    ensures
        two_digits(n) == seq![digit_char(n / 10), digit_char(n % 10)],
{
    if n >= 10 {
        assert(decimal(n / 10) == seq![digit_char(n / 10)]);
        assert(decimal(n) =~= seq![digit_char(n / 10), digit_char(n % 10)]);
    } else {
        lemma_digit_char(0, 0);
        assert(two_digits(n) =~= seq![digit_char(n / 10), digit_char(n % 10)]);
    }
}

/// Different numbers below one hundred have different zero-padded texts,
/// each two digits long.
pub proof fn lemma_two_digits_injective(a: nat, b: nat)
    requires
        a < 100,
        b < 100,
    ensures
        two_digits(a).len() == 2,
        is_digit(two_digits(a)[0]) && is_digit(two_digits(a)[1]),
        two_digits(a) == two_digits(b) ==> a == b,
{
    lemma_two_digits(a);
    lemma_two_digits(b);
    lemma_digit_char(a / 10, b / 10);
    lemma_digit_char(a % 10, b % 10);
    if two_digits(a) == two_digits(b) {
        assert(two_digits(a)[0] == two_digits(b)[0]);
        assert(two_digits(a)[1] == two_digits(b)[1]);
        vstd::arithmetic::div_mod::lemma_fundamental_div_mod(a as int, 10);
        vstd::arithmetic::div_mod::lemma_fundamental_div_mod(b as int, 10);
    }
}

/// The number that a run of decimal digit characters spells.
pub open spec fn digits_value(s: Seq<char>) -> nat
    decreases s.len(),
{
    if s.len() == 0 {
        0
    } else {
        digits_value(s.drop_last()) * 10 + ((s.last() as u32) - 48) as nat
    }
}

/// The decimal representation of `n` spells `n` in digits, without a
/// leading zero except for zero itself.
pub proof fn law_decimal_spells_number(n: nat)
    ensures
        forall|i: int| 0 <= i < decimal(n).len() ==> is_digit(#[trigger] decimal(n)[i]),
        digits_value(decimal(n)) == n,
        decimal(n).len() >= 1,
        decimal(n).len() > 1 ==> decimal(n)[0] != '0',
    decreases n,
{
    lemma_decimal_digits(n);
    let d = decimal(n);
    if n < 10 {
        lemma_digit_char(n, n);
        assert(d.drop_last() =~= Seq::<char>::empty());
        assert(d.last() == digit_char(n));
        assert(digits_value(d) == digits_value(d.drop_last()) * 10 + ((d.last() as u32) - 48) as nat);
    } else {
        law_decimal_spells_number(n / 10);
        lemma_decimal_digits(n / 10);
        lemma_digit_char(n % 10, n % 10);
        assert(d.last() == digit_char(n % 10));
        assert(digits_value(d) == digits_value(d.drop_last()) * 10 + ((d.last() as u32) - 48) as nat);
        assert(decimal(n).drop_last() == decimal(n / 10));
        assert(n == (n / 10) * 10 + n % 10);
        if decimal(n / 10).len() == 1 {
            lemma_digit_char(n / 10, 0);
            assert(decimal(n / 10)[0] == digit_char(n / 10));
            assert(digit_char(0) as u32 == 48);
        }
        assert(decimal(n)[0] == decimal(n / 10)[0]);
    }
}

/// A negative integer is shown as `-` followed by the digits of its
/// magnitude, any other integer as its digits alone.
pub proof fn law_signed_decimal(i: int)
    ensures
        i < 0 ==> signed_decimal(i)[0] == '-' && signed_decimal(i).drop_first() == decimal(
            (-i) as nat,
        ),
        i >= 0 ==> signed_decimal(i) == decimal(i as nat),
{
    if i < 0 {
        assert((seq!['-'] + decimal((-i) as nat)).drop_first() =~= decimal((-i) as nat));
    }
}

} // verus!

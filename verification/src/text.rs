//! Decimal text of natural numbers, plain and with thousands separators.

use vstd::prelude::*;

verus! {

/// The character of a decimal digit.
#[verifier::opaque]
pub open spec fn digit_char(d: nat) -> char {
    if d == 0 {
        '0'
    } else if d == 1 {
        '1'
    } else if d == 2 {
        '2'
    } else if d == 3 {
        '3'
    } else if d == 4 {
        '4'
    } else if d == 5 {
        '5'
    } else if d == 6 {
        '6'
    } else if d == 7 {
        '7'
    } else if d == 8 {
        '8'
    } else {
        '9'
    }
}

/// The decimal digits of `n`, most significant first, without leading
/// zeros; zero is the single digit `0`.
pub open spec fn decimal_text(n: nat) -> Seq<char>
    decreases n,
{
    if n < 10 {
        seq![digit_char(n)]
    } else {
        decimal_text(n / 10).push(digit_char(n % 10))
    }
}

/// The three digits of a number below 1000, zero-padded.
pub open spec fn group_text(r: nat) -> Seq<char> {
    seq![digit_char(r / 100), digit_char((r / 10) % 10), digit_char(r % 10)]
}

/// The decimal digits of `n` with a comma before every group of three
/// digits, counted from the right.
pub open spec fn grouped_text(n: nat) -> Seq<char>
    decreases n,
{
    if n < 1000 {
        decimal_text(n)
    } else {
        grouped_text(n / 1000) + seq![','] + group_text(n % 1000)
    }
}

/// Whether `c` is one of the ten decimal digits.
#[verifier::opaque]
pub open spec fn is_digit_char(c: char) -> bool {
    c == '0' || c == '1' || c == '2' || c == '3' || c == '4' || c == '5' || c == '6' || c == '7'
        || c == '8' || c == '9'
}

/// The number that a decimal digit stands for.
#[verifier::opaque]
pub open spec fn digit_value(c: char) -> nat {
    if c == '1' {
        1
    } else if c == '2' {
        2
    } else if c == '3' {
        3
    } else if c == '4' {
        4
    } else if c == '5' {
        5
    } else if c == '6' {
        6
    } else if c == '7' {
        7
    } else if c == '8' {
        8
    } else if c == '9' {
        9
    } else {
        0
    }
}

/// The number that a text of decimal digits stands for. Commas between
/// the digits are passed over.
pub open spec fn text_value(s: Seq<char>) -> nat
    decreases s.len(),
{
    if s.len() == 0 {
        0
    } else if s.last() == ',' {
        text_value(s.drop_last())
    } else {
        text_value(s.drop_last()) * 10 + digit_value(s.last())
    }
}

/// A digit's character is a decimal digit, and stands for that digit.
pub proof fn lemma_digit_char(d: nat)
    requires
        d < 10,
    ensures
        is_digit_char(digit_char(d)),
        digit_value(digit_char(d)) == d,
        digit_char(d) != ',',
        (digit_char(d) == '0') == (d == 0),
{
    reveal(digit_char);
    reveal(is_digit_char);
    reveal(digit_value);
}

/// The decimal text of `n` is exact and has no leading zeros: it is made
/// of digits only, reads back as `n`, and starts with `0` only where `n`
/// is zero, whose text is the single digit `0`.
pub proof fn lemma_decimal_text_exact(n: nat)
    ensures
        decimal_text(n).len() >= 1,
        forall|i: int| 0 <= i < decimal_text(n).len() ==> is_digit_char(#[trigger] decimal_text(n)[i]),
        text_value(decimal_text(n)) == n,
        (decimal_text(n)[0] == '0') == (n == 0),
        n == 0 ==> decimal_text(n) == seq!['0'],
    decreases n,
{
    let t = decimal_text(n);
    lemma_digit_char(n % 10);
    if n < 10 {
        assert(t.drop_last() =~= Seq::<char>::empty());
        assert(text_value(t.drop_last()) == 0);
    } else {
        let head = decimal_text(n / 10);
        lemma_decimal_text_exact(n / 10);
        assert(t.drop_last() =~= head);
        assert(t[0] == head[0]);
        assert forall|i: int| 0 <= i < t.len() implies is_digit_char(#[trigger] t[i]) by {
            if i < head.len() {
                assert(t[i] == head[i]);
            }
        }
    }
}

/// Appending a digit to a text multiplies its value by ten and adds the
/// digit.
proof fn lemma_text_value_push(s: Seq<char>, d: nat)
    requires
        d < 10,
    ensures
        text_value(s.push(digit_char(d))) == text_value(s) * 10 + d,
{
    lemma_digit_char(d);
    assert(s.push(digit_char(d)).drop_last() =~= s);
}

/// The grouped text of `n` is made of digits and commas only, is not
/// empty, and reads back as `n` when the commas are passed over.
pub proof fn lemma_grouped_text_exact(n: nat)
    ensures
        grouped_text(n).len() >= 1,
        forall|i: int|
            0 <= i < grouped_text(n).len() ==> is_digit_char(#[trigger] grouped_text(n)[i])
                || grouped_text(n)[i] == ',',
        text_value(grouped_text(n)) == n,
    decreases n,
{
    let t = grouped_text(n);
    if n < 1000 {
        lemma_decimal_text_exact(n);
    } else {
        let r = n % 1000;
        let head = grouped_text(n / 1000);
        lemma_grouped_text_exact(n / 1000);
        let s1 = head.push(',');
        let s2 = s1.push(digit_char(r / 100));
        let s3 = s2.push(digit_char((r / 10) % 10));
        let s4 = s3.push(digit_char(r % 10));
        assert(t =~= s4);
        assert(s1.drop_last() =~= head);
        assert(text_value(s1) == n / 1000);
        lemma_text_value_push(s1, r / 100);
        lemma_text_value_push(s2, (r / 10) % 10);
        lemma_text_value_push(s3, r % 10);
        lemma_digit_char(r / 100);
        lemma_digit_char((r / 10) % 10);
        lemma_digit_char(r % 10);
        assert forall|i: int| 0 <= i < t.len() implies is_digit_char(#[trigger] t[i]) || t[i]
            == ',' by {
            if i < head.len() {
                assert(t[i] == head[i]);
            }
        }
    }
}

/// `String::push`: the string with one more character at its end.
#[verifier::external_body]
pub(crate) fn push_char(s: &mut String, c: char)
    ensures
        final(s)@ == old(s)@.push(c),
{
    s.push(c)
}

/// The character of the decimal digit `d`.
pub fn digit(d: u64) -> (c: char)
    requires
        d < 10,
    ensures
        c == digit_char(d as nat),
{
    reveal(digit_char);
    if d == 0 {
        '0'
    } else if d == 1 {
        '1'
    } else if d == 2 {
        '2'
    } else if d == 3 {
        '3'
    } else if d == 4 {
        '4'
    } else if d == 5 {
        '5'
    } else if d == 6 {
        '6'
    } else if d == 7 {
        '7'
    } else if d == 8 {
        '8'
    } else {
        '9'
    }
}

/// Appends the decimal digits of `n` to `s`.
pub fn push_decimal(s: &mut String, n: u64)
    ensures
        final(s)@ == old(s)@ + decimal_text(n as nat),
    decreases n,
{
    if n >= 10 {
        push_decimal(s, n / 10);
    }
    push_char(s, digit(n % 10));
}

/// Appends the digits of `n` to `s`, grouped in threes by commas.
pub fn push_grouped(s: &mut String, n: u64)
    ensures
        final(s)@ == old(s)@ + grouped_text(n as nat),
    decreases n,
{
    if n < 1000 {
        push_decimal(s, n);
    } else {
        push_grouped(s, n / 1000);
        let r: u64 = n % 1000;
        push_char(s, ',');
        push_char(s, digit(r / 100));
        push_char(s, digit((r / 10) % 10));
        push_char(s, digit(r % 10));
        assert(final(s)@ =~= old(s)@ + grouped_text(n as nat));
    }
}

/// The decimal text of `number` with a comma between groups of three
/// digits: `1234567` gives `1,234,567`.
pub fn thousands_separator(number: u64) -> (r: String)
    ensures
        r@ == grouped_text(number as nat),
{
    let mut s = String::new();
    push_grouped(&mut s, number);
    assert(s@ =~= grouped_text(number as nat));
    s
}

} // verus!

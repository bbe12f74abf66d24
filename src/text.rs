//! Decimal digits and text buffers.
use vstd::prelude::*;

verus! {

/// The character of a decimal digit.
pub open spec fn digit_char(d: int) -> char {
    ((48 + d) as u8) as char
}

/// The decimal text of a non-negative integer, without leading zeros.
pub open spec fn int_text(n: nat) -> Seq<char>
    decreases n,
{
    if n < 10 {
        seq![digit_char(n as int)]
    } else {
        int_text(n / 10) + seq![digit_char((n % 10) as int)]
    }
}

/// A digit's character is neither a space nor a newline.
pub proof fn lemma_digit_char(d: int)
    requires
        0 <= d < 10,
    ensures
        digit_char(d) != ' ',
        digit_char(d) != '\n',
{
}

/// The text of any integer is made of digits alone, and has at most `k`
/// of them when the integer is below `10^k`.
pub proof fn lemma_int_text_digits(n: nat, k: nat)
    requires
        1 <= k,
        n < crate::decimal::pow10(k),
    ensures
        1 <= int_text(n).len() <= k,
        forall|i: int| 0 <= i < int_text(n).len() ==> #[trigger] int_text(n)[i] != ' ' && int_text(n)[i] != '\n',
    decreases n,
{
    lemma_digit_char((n % 10) as int);
    if n >= 10 {
        crate::decimal::lemma_pow10_step((k - 1) as nat);
        if k == 1 {
            assert(crate::decimal::pow10(0) == 1);
        }
        lemma_int_text_digits(n / 10, (k - 1) as nat);
        let t = int_text(n);
        assert(t == int_text(n / 10) + seq![digit_char((n % 10) as int)]);
        assert forall|i: int| 0 <= i < t.len() implies #[trigger] t[i] != ' ' && t[i] != '\n' by {
            if i < int_text(n / 10).len() {
                assert(t[i] == int_text(n / 10)[i]);
            }
        }
    } else {
        lemma_digit_char(n as int);
    }
}

/// The text of an integer below 1000 has one to three digits, none of them a
/// space or a newline.
pub proof fn lemma_int_text(n: nat)
    requires
        n < 1000,
    ensures
        1 <= int_text(n).len() <= 3,
        forall|k: int| 0 <= k < int_text(n).len() ==> #[trigger] int_text(n)[k] != ' ' && int_text(n)[k] != '\n',
{
    reveal_with_fuel(int_text, 3);
    lemma_digit_char((n % 10) as int);
    lemma_digit_char(((n / 10) % 10) as int);
    lemma_digit_char((n / 100) as int);
    if n >= 100 {
        assert(int_text(n) == seq![
            digit_char((n / 100) as int),
            digit_char(((n / 10) % 10) as int),
            digit_char((n % 10) as int),
        ]);
    } else if n >= 10 {
        assert(int_text(n) == seq![digit_char((n / 10) as int), digit_char((n % 10) as int)]);
    }
}

pub(crate) fn digit(d: u8) -> (c: char)
    requires
        d < 10,
    ensures
        c == digit_char(d as int),
{
    (48 + d) as char
}


/// Appends the decimal text of `n`.
pub(crate) fn push_int_text(out: &mut Vec<char>, n: u8)
    ensures
        final(out)@ == old(out)@ + int_text(n as nat),
{
    proof {
        reveal_with_fuel(int_text, 3);
    }
    if n >= 100 {
        out.push(digit(n / 100));
        out.push(digit((n / 10) % 10));
        out.push(digit(n % 10));
        assert(int_text(n as nat) == seq![
            digit_char((n / 100) as int),
            digit_char(((n / 10) % 10) as int),
            digit_char((n % 10) as int),
        ]);
    } else if n >= 10 {
        out.push(digit(n / 10));
        out.push(digit(n % 10));
        assert(int_text(n as nat) == seq![
            digit_char((n / 10) as int),
            digit_char((n % 10) as int),
        ]);
    } else {
        out.push(digit(n));
    }
}

/// Relies on std's `FromIterator<&char> for String`: the string holds the
/// characters in order.
#[verifier::external_body]
pub(crate) fn string_from_chars(chars: &Vec<char>) -> (r: String)
    ensures
        r@ == chars@,
{
    chars.iter().collect()
}

} // verus!

//! Decimal notation of 32-bit integers.

use vstd::prelude::*;
use vstd::string::*;

verus! {

/// Whether `c` is one of the digits `0` to `9`.
pub open spec fn is_digit(c: char) -> bool {
    '0' <= c <= '9'
}

/// The value of a digit.
pub open spec fn digit_value(c: char) -> int {
    c as int - '0' as int
}

/// Whether the text consists of digits only.
pub open spec fn all_digits(s: Seq<char>) -> bool {
    forall|i: int| 0 <= i < s.len() ==> is_digit(#[trigger] s[i])
}

/// The number that a run of digits denotes; 0 for the empty run.
pub open spec fn digits_value(s: Seq<char>) -> int
    decreases s.len(),
{
    if s.len() == 0 {
        0
    } else {
        10 * digits_value(s.drop_last()) + digit_value(s.last())
    }
}

/// The text without a leading sign.
pub open spec fn unsigned_part(s: Seq<char>) -> Seq<char> {
    if s.len() > 0 && (s[0] == '-' || s[0] == '+') {
        s.subrange(1, s.len() as int)
    } else {
        s
    }
}

/// The integer that `s` denotes: an optional `+` or `-`, then at least one
/// digit and nothing else, with a value that fits in 32 bits. Any other text
/// denotes nothing.
pub open spec fn parse_i32_spec(s: Seq<char>) -> Option<i32> {
    let digits = unsigned_part(s);
    let magnitude = digits_value(digits);
    let value = if s.len() > 0 && s[0] == '-' {
        -magnitude
    } else {
        magnitude
    };
    if digits.len() > 0 && all_digits(digits) && i32::MIN <= value <= i32::MAX {
        Some(value as i32)
    } else {
        None
    }
}

/// A run of digits denotes at least what any of its prefixes denotes.
pub proof fn lemma_digits_value_grows(s: Seq<char>, n: int)
    requires
        all_digits(s),
        0 <= n <= s.len(),
    ensures
        0 <= digits_value(s.take(n)) <= digits_value(s),
    decreases s.len() - n,
{
    if n == s.len() {
        assert(s.take(n) =~= s);
        lemma_digits_value_nonnegative(s);
    } else {
        lemma_digits_value_grows(s, n + 1);
        assert(s.take(n + 1).drop_last() =~= s.take(n));
    }
}

/// A run of digits denotes no negative number.
pub proof fn lemma_digits_value_nonnegative(s: Seq<char>)
    requires
        all_digits(s),
    ensures
        0 <= digits_value(s),
    decreases s.len(),
{
    if s.len() > 0 {
        lemma_digits_value_nonnegative(s.drop_last());
    }
}

/// Reads a decimal integer.
pub fn parse_i32(s: &str) -> (r: Option<i32>)
    ensures
        r == parse_i32_spec(s@),
{
    let n = s.unicode_len();
    if n == 0 {
        return None;
    }
    let first = s.get_char(0);
    let negative = first == '-';
    let start: usize = if first == '-' || first == '+' {
        1
    } else {
        0
    };
    if start == n {
        return None;
    }
    let ghost digits = unsigned_part(s@);
    let mut magnitude: i64 = 0;
    let mut i: usize = start;
    while i < n
        invariant
            start <= i <= n,
            n == s@.len(),
            digits == s@.subrange(start as int, n as int),
            digits == unsigned_part(s@),
            negative == (s@[0] == '-'),
            all_digits(digits.take(i - start)),
            magnitude == digits_value(digits.take(i - start)),
            0 <= magnitude <= 0x8000_0000,
        decreases n - i,
    {
        let c = s.get_char(i);
        let ghost k = i - start;
        assert(digits[k] == c);
        if !('0' <= c && c <= '9') {
            return None;
        }
        let d: i64 = (c as u8 - '0' as u8) as i64;
        proof {
            assert(digits.take(k + 1).drop_last() =~= digits.take(k));
            assert forall|j: int| 0 <= j < k + 1 implies is_digit(
                #[trigger] digits.take(k + 1)[j],
            ) by {}
        }
        magnitude = magnitude * 10 + d;
        i += 1;
        if magnitude > 0x8000_0000 {
            proof {
                if all_digits(digits) {
                    lemma_digits_value_grows(digits, k + 1);
                }
            }
            return None;
        }
    }
    assert(digits.take(n - start) =~= digits);
    if negative {
        Some((-magnitude) as i32)
    } else if magnitude > 0x7fff_ffff {
        None
    } else {
        Some(magnitude as i32)
    }
}

/// The digit that stands for a value from 0 to 9.
pub open spec fn digit_char(d: int) -> char {
    if d == 0 {
        '0'
    } else if d == 1 {
        '1'
    } else if d == 2 {
        '2'
    } else if d == 3 {
        '3'
    } else if d == 4 {
        '4'
    } else if d == 5 {
        '5'
    } else if d == 6 {
        '6'
    } else if d == 7 {
        '7'
    } else if d == 8 {
        '8'
    } else {
        '9'
    }
}

/// The digits of a natural number, without leading zeros; `0` for zero.
pub open spec fn digits_of(n: nat) -> Seq<char>
    decreases n,
{
    if n < 10 {
        seq![digit_char(n as int)]
    } else {
        digits_of(n / 10).push(digit_char((n % 10) as int))
    }
}

/// The decimal notation of an integer: its digits, after a `-` where it is
/// negative.
pub open spec fn decimal_of(n: int) -> Seq<char> {
    if n < 0 {
        seq!['-'] + digits_of((-n) as nat)
    } else {
        digits_of(n as nat)
    }
}

/// The digits of a number denote the number.
pub proof fn lemma_digits_of(n: nat)
    ensures
        digits_of(n).len() > 0,
        all_digits(digits_of(n)),
        digits_value(digits_of(n)) == n,
    decreases n,
{
    if n >= 10 {
        lemma_digits_of(n / 10);
        let init = digits_of(n / 10);
        let all = digits_of(n);
        assert(all.drop_last() =~= init);
        assert forall|i: int| 0 <= i < all.len() implies is_digit(#[trigger] all[i]) by {}
    } else {
        let all = digits_of(n);
        assert(all.drop_last() =~= Seq::<char>::empty());
        assert(digits_value(Seq::<char>::empty()) == 0);
    }
}

/// Reading the decimal notation of a 32-bit integer gives the integer back.
pub proof fn lemma_parse_decimal(n: i32)
    ensures
        parse_i32_spec(decimal_of(n as int)) == Some(n),
{
    let text = decimal_of(n as int);
    if n < 0 {
        let digits = digits_of((-n) as nat);
        lemma_digits_of((-n) as nat);
        assert(unsigned_part(text) =~= digits);
    } else {
        lemma_digits_of(n as nat);
    }
}

/// Two integers with the same decimal notation are the same integer.
pub proof fn lemma_decimal_injective(a: i32, b: i32)
    requires
        decimal_of(a as int) == decimal_of(b as int),
    ensures
        a == b,
{
    lemma_parse_decimal(a);
    lemma_parse_decimal(b);
}

/// The text of one digit.
fn digit_text(d: u32) -> (text: &'static str)
    requires
        d < 10,
    ensures
        text@ == seq![digit_char(d as int)],
{
    proof {
        reveal_strlit("0");
        reveal_strlit("1");
        reveal_strlit("2");
        reveal_strlit("3");
        reveal_strlit("4");
        reveal_strlit("5");
        reveal_strlit("6");
        reveal_strlit("7");
        reveal_strlit("8");
        reveal_strlit("9");
    }
    let text = match d {
        0 => "0",
        1 => "1",
        2 => "2",
        3 => "3",
        4 => "4",
        5 => "5",
        6 => "6",
        7 => "7",
        8 => "8",
        _ => "9",
    };
    text
}

/// Appends the digits of a natural number.
fn push_digits(text: &mut String, n: u32)
    ensures
        final(text)@ == old(text)@ + digits_of(n as nat),
    decreases n,
{
    if n >= 10 {
        push_digits(text, n / 10);
    }
    text.append(digit_text(n % 10));
}

/// Writes an integer in decimal notation.
pub fn format_i32(n: i32) -> (text: String)
    ensures
        text@ == decimal_of(n as int),
{
    let mut text = String::new();
    if n < 0 {
        proof {
            reveal_strlit("-");
        }
        text.append("-");
        push_digits(&mut text, (-(n as i64)) as u32);
    } else {
        push_digits(&mut text, n as u32);
    }
    text
}

} // verus!

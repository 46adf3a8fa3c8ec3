//! Decimal notation for unsigned integers: writing it and reading it back.

use vstd::prelude::*;
use vstd::string::*;

verus! {

/// The character that stands for the digit `d`.
pub open spec fn digit_char(d: int) -> char {
    if d == 0 {
        '0'
    } else if d == 1 {
        '1'
    } else if d == 2 {
        '2'
    } else if d == 3 {
        '3'
    } else if d == 4 {
        '4'
    } else if d == 5 {
        '5'
    } else if d == 6 {
        '6'
    } else if d == 7 {
        '7'
    } else if d == 8 {
        '8'
    } else {
        '9'
    }
}

/// True for the ten ASCII digits.
pub open spec fn is_digit(c: char) -> bool {
    '0' <= c <= '9'
}

/// The number that an ASCII digit stands for.
pub open spec fn digit_value(c: char) -> int {
    c as int - '0' as int
}

/// The shortest decimal notation of `n`: no sign, no leading zero.
pub open spec fn decimal(n: nat) -> Seq<char>
    decreases n,
{
    if n < 10 {
        seq![digit_char(n as int)]
    } else {
        decimal(n / 10).push(digit_char((n % 10) as int))
    }
}

/// True for a non-empty run of ASCII digits.
pub open spec fn is_decimal(s: Seq<char>) -> bool {
    s.len() > 0 && forall|i: int| 0 <= i < s.len() ==> is_digit(#[trigger] s[i])
}

/// The number that a run of ASCII digits denotes.
pub open spec fn decimal_value(s: Seq<char>) -> nat
    decreases s.len(),
{
    if s.len() == 0 {
        0
    } else {
        (decimal_value(s.drop_last()) * 10 + digit_value(s.last())) as nat
    }
}

/// The digits of a number text, after an optional leading `+`.
pub open spec fn unsigned_digits(s: Seq<char>) -> Seq<char> {
    if s.len() > 0 && s[0] == '+' {
        s.drop_first()
    } else {
        s
    }
}

/// Reads a `u32`: an optional `+`, then one or more ASCII digits whose value
/// fits. Anything else is no number.
pub open spec fn parse_u32_spec(s: Seq<char>) -> Option<u32> {
    let digits = unsigned_digits(s);
    if is_decimal(digits) && decimal_value(digits) <= u32::MAX {
        Some(decimal_value(digits) as u32)
    } else {
        None
    }
}

/// A digit's character is a digit and stands for that digit.
pub proof fn lemma_digit_char(d: int)
    requires
        0 <= d < 10,
    ensures
        is_digit(digit_char(d)),
        digit_value(digit_char(d)) == d,
        digit_char(d) != '+',
{
}

/// The notation of a number is a run of digits that denotes the number.
pub proof fn lemma_decimal_value(n: nat)
    ensures
        is_decimal(decimal(n)),
        decimal_value(decimal(n)) == n,
        decimal(n)[0] != '+',
    decreases n,
{
    let s = decimal(n);
    if n < 10 {
        lemma_digit_char(n as int);
        assert(decimal_value(s) == decimal_value(s.drop_last()) * 10 + digit_value(s.last()));
    } else {
        lemma_decimal_value(n / 10);
        lemma_digit_char((n % 10) as int);
        let head = decimal(n / 10);
        assert(s.drop_last() =~= head);
        assert forall|i: int| 0 <= i < s.len() implies is_digit(#[trigger] s[i]) by {
            if i < head.len() {
                assert(s[i] == head[i]);
            }
        }
    }
}

/// Reading the notation of a `u32` gives the number back.
pub proof fn lemma_decimal_round_trip(n: u32)
    ensures
        parse_u32_spec(decimal(n as nat)) == Some(n),
{
    lemma_decimal_value(n as nat);
}

/// A run of digits denotes at least what any of its prefixes denotes.
pub proof fn lemma_prefix_value(s: Seq<char>, k: int)
    requires
        0 <= k <= s.len(),
        forall|i: int| 0 <= i < s.len() ==> is_digit(#[trigger] s[i]),
    ensures
        decimal_value(s.take(k)) <= decimal_value(s),
    decreases s.len() - k,
{
    if k < s.len() {
        lemma_prefix_value(s, k + 1);
        let longer = s.take(k + 1);
        assert(longer.drop_last() =~= s.take(k));
    } else {
        assert(s.take(k) =~= s);
    }
}

/// The one-character text of a digit.
fn digit_str(d: u32) -> (s: &'static str)
    requires
        d < 10,
    ensures
        s@ == seq![digit_char(d as int)],
{
    proof {
        reveal_strlit("0");
        reveal_strlit("1");
        reveal_strlit("2");
        reveal_strlit("3");
        reveal_strlit("4");
        reveal_strlit("5");
        reveal_strlit("6");
        reveal_strlit("7");
        reveal_strlit("8");
        reveal_strlit("9");
    }
    let s = if d == 0 {
        "0"
    } else if d == 1 {
        "1"
    } else if d == 2 {
        "2"
    } else if d == 3 {
        "3"
    } else if d == 4 {
        "4"
    } else if d == 5 {
        "5"
    } else if d == 6 {
        "6"
    } else if d == 7 {
        "7"
    } else if d == 8 {
        "8"
    } else {
        "9"
    };
    s
}

/// Appends the decimal notation of `n` to `text`.
pub fn append_decimal(text: &mut String, n: u32)
    ensures
        final(text)@ == old(text)@ + decimal(n as nat),
    decreases n,
{
    if n >= 10 {
        append_decimal(text, n / 10);
    }
    text.append(digit_str(n % 10));
}

/// Reads a `u32` from its decimal notation.
pub fn parse_u32(s: &str) -> (value: Option<u32>)
    ensures
        value == parse_u32_spec(s@),
{
    let len: usize = s.unicode_len();
    if len == 0 {
        return None;
    }
    let first: usize = if s.get_char(0) == '+' {
        1
    } else {
        0
    };
    let ghost digits = unsigned_digits(s@);
    if first == len {
        return None;
    }
    let mut acc: u64 = 0;
    let mut i: usize = first;
    while i < len
        invariant
            first <= i <= len,
            len == s@.len(),
            digits == unsigned_digits(s@),
            digits == s@.subrange(first as int, len as int),
            forall|j: int| 0 <= j < i - first ==> is_digit(#[trigger] digits[j]),
            acc == decimal_value(digits.take(i - first)),
            acc <= u32::MAX,
        decreases len - i,
    {
        let c = s.get_char(i);
        if !('0' <= c && c <= '9') {
            assert(!is_digit(digits[i - first]));
            return None;
        }
        let ghost longer = digits.take(i - first + 1);
        assert(longer.drop_last() =~= digits.take(i - first));
        acc = acc * 10 + (c as u64 - '0' as u64);
        if acc > u32::MAX as u64 {
            proof {
                if is_decimal(digits) {
                    lemma_prefix_value(digits, i - first + 1);
                }
            }
            return None;
        }
        i = i + 1;
    }
    assert(digits.take(i - first) =~= digits);
    Some(acc as u32)
}

} // verus!

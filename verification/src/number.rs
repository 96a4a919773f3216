//! Whole numbers as decimal text: reading and writing.

use vstd::prelude::*;

verus! {

/// The value of a decimal digit.
pub open spec fn digit_value(c: char) -> int {
    c as int - '0' as int
}

/// Whether `c` is one of the digits `0` to `9`.
pub open spec fn is_digit(c: char) -> bool {
    '0' <= c <= '9'
}

/// Whether `text` holds digits only.
pub open spec fn all_digits(text: Seq<char>) -> bool {
    forall|i: int| 0 <= i < text.len() ==> is_digit(#[trigger] text[i])
}

/// The number that the digits of `text` write in base ten.
pub open spec fn decimal_value(text: Seq<char>) -> nat
    decreases text.len(),
{
    if text.len() == 0 {
        0
    } else {
        (decimal_value(text.drop_last()) * 10 + digit_value(text.last())) as nat
    }
}

/// `text` without a leading `+`.
pub open spec fn unsigned_part(text: Seq<char>) -> Seq<char> {
    if text.len() > 0 && text[0] == '+' {
        text.subrange(1, text.len() as int)
    } else {
        text
    }
}

/// The number that `text` writes: digits, at least one, with or without a
/// `+` in front, and within `limit`.
pub open spec fn parsed_number(text: Seq<char>, limit: nat) -> Option<nat> {
    let digits = unsigned_part(text);
    if digits.len() > 0 && all_digits(digits) && decimal_value(digits) <= limit {
        Some(decimal_value(digits))
    } else {
        None
    }
}

/// More digits make no smaller number.
pub proof fn lemma_decimal_value_grows(text: Seq<char>, n: int)
    requires
        all_digits(text),
        0 <= n <= text.len(),
    ensures
        decimal_value(text.take(n)) <= decimal_value(text),
    decreases text.len() - n,
{
    if n < text.len() {
        lemma_decimal_value_grows(text, n + 1);
        assert(text.take(n + 1).drop_last() == text.take(n));
        assert(is_digit(text[n]));
        assert(text.take(n + 1).last() == text[n]);
    } else {
        assert(text.take(n) == text);
    }
}

/// Reads a `u64` from decimal text.
pub fn parse_u64(text: &Vec<char>) -> (number: Option<u64>)
    ensures
        match number {
            Some(n) => parsed_number(text@, u64::MAX as nat) == Some(n as nat),
            None => parsed_number(text@, u64::MAX as nat) is None,
        },
{
    let start: usize = if text.len() > 0 && text[0] == '+' {
        1
    } else {
        0
    };
    let ghost digits = unsigned_part(text@);
    assert(digits == text@.subrange(start as int, text.len() as int));
    if start == text.len() {
        return None;
    }
    let mut value: u64 = 0;
    let mut i: usize = start;
    while i < text.len()
        invariant
            start <= i <= text.len(),
            digits == unsigned_part(text@),
            digits == text@.subrange(start as int, text.len() as int),
            all_digits(digits.take(i - start)),
            value == decimal_value(digits.take(i - start)),
        decreases text.len() - i,
    {
        let c: char = text[i];
        assert(digits[i - start] == c);
        if c < '0' || c > '9' {
            assert(!is_digit(digits[i - start]));
            return None;
        }
        let d: u64 = (c as u32 - '0' as u32) as u64;
        proof {
            assert(digits.take(i - start + 1).drop_last() == digits.take(i - start));
            assert(digits.take(i - start + 1).last() == c);
            assert forall|k: int| 0 <= k < i - start + 1 implies is_digit(
                #[trigger] digits.take(i - start + 1)[k],
            ) by {
                if k < i - start {
                    assert(digits.take(i - start)[k] == digits.take(i - start + 1)[k]);
                }
            }
        }
        if value > (u64::MAX - d) / 10 {
            proof {
                let next = digits.take(i - start + 1);
                assert(decimal_value(next) > u64::MAX);
                if all_digits(digits) {
                    lemma_decimal_value_grows(digits, i - start + 1);
                }
            }
            return None;
        }
        value = value * 10 + d;
        i += 1;
    }
    assert(digits.take(i - start) == digits);
    Some(value)
}

/// Reads a number of at most `limit` from decimal text.
pub fn parse_within(text: &Vec<char>, limit: u64) -> (number: Option<u64>)
    ensures
        match number {
            Some(n) => parsed_number(text@, limit as nat) == Some(n as nat),
            None => parsed_number(text@, limit as nat) is None,
        },
{
    match parse_u64(text) {
        Some(n) => {
            if n <= limit {
                Some(n)
            } else {
                None
            }
        },
        None => None,
    }
}

/// Reads a `usize` from decimal text.
pub fn parse_usize(text: &Vec<char>) -> (number: Option<usize>)
    ensures
        match number {
            Some(n) => parsed_number(text@, usize::MAX as nat) == Some(n as nat),
            None => parsed_number(text@, usize::MAX as nat) is None,
        },
{
    match parse_u64(text) {
        Some(n) => {
            if n <= usize::MAX as u64 {
                Some(n as usize)
            } else {
                None
            }
        },
        None => None,
    }
}

/// The decimal digits of `n`, the most significant first; none for 0.
pub open spec fn digits_of(n: nat) -> Seq<char>
    decreases n,
{
    if n == 0 {
        Seq::empty()
    } else {
        digits_of(n / 10).push(digit_char(n % 10))
    }
}

/// The digit that writes `d`.
pub open spec fn digit_char(d: nat) -> char {
    if d == 0 {
        '0'
    } else if d == 1 {
        '1'
    } else if d == 2 {
        '2'
    } else if d == 3 {
        '3'
    } else if d == 4 {
        '4'
    } else if d == 5 {
        '5'
    } else if d == 6 {
        '6'
    } else if d == 7 {
        '7'
    } else if d == 8 {
        '8'
    } else {
        '9'
    }
}

/// `n` as decimal text: `0` for 0, else its digits without leading zeros.
pub open spec fn decimal_text(n: nat) -> Seq<char> {
    if n == 0 {
        seq!['0']
    } else {
        digits_of(n)
    }
}

/// The digit that writes `d`.
fn digit_of(d: u128) -> (c: char)
    requires
        d < 10,
    ensures
        c == digit_char(d as nat),
{
    if d == 0 {
        '0'
    } else if d == 1 {
        '1'
    } else if d == 2 {
        '2'
    } else if d == 3 {
        '3'
    } else if d == 4 {
        '4'
    } else if d == 5 {
        '5'
    } else if d == 6 {
        '6'
    } else if d == 7 {
        '7'
    } else if d == 8 {
        '8'
    } else {
        '9'
    }
}

/// Writes `n` as decimal text.
pub fn decimal(n: u128) -> (text: Vec<char>)
    ensures
        text@ == decimal_text(n as nat),
{
    let mut text: Vec<char> = Vec::new();
    if n == 0 {
        text.push('0');
        return text;
    }
    let mut rest: u128 = n;
    // The digits come out last first.
    let mut reversed: Vec<char> = Vec::new();
    while rest > 0
        invariant
            digits_of(n as nat) == digits_of(rest as nat) + reversed@.reverse(),
        decreases rest,
    {
        let c = digit_of(rest % 10);
        proof {
            let before = reversed@;
            assert(before.push(c).reverse() == seq![c] + before.reverse());
            assert(digits_of(rest as nat) == digits_of((rest / 10) as nat).push(c));
            assert(digits_of((rest / 10) as nat).push(c) + before.reverse() == digits_of(
                (rest / 10) as nat,
            ) + (seq![c] + before.reverse()));
        }
        reversed.push(c);
        rest = rest / 10;
    }
    assert(digits_of(0) == Seq::<char>::empty());
    assert(digits_of(n as nat) == reversed@.reverse());
    let mut k: usize = reversed.len();
    while k > 0
        invariant
            k <= reversed.len(),
            text@ == reversed@.reverse().take(reversed.len() - k),
        decreases k,
    {
        k -= 1;
        proof {
            let r = reversed@.reverse();
            let m = reversed.len() - k - 1;
            assert(r.take(m + 1) == r.take(m).push(r[m]));
            assert(r[m] == reversed@[k as int]);
        }
        text.push(reversed[k]);
    }
    assert(reversed@.reverse().take(reversed.len() as int) == reversed@.reverse());
    text
}

} // verus!

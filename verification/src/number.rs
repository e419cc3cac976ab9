//! Decimal text of integers, and integers from decimal text.
use vstd::prelude::*;
use vstd::string::*;

use crate::text;

verus! {

/// The character of a decimal digit.
pub open spec fn digit(value: nat) -> char {
    (48 + value) as char
}

/// The decimal text of a natural number.
pub open spec fn decimal(value: nat) -> Seq<char>
    decreases value,
{
    if value < 10 {
        seq![digit(value)]
    } else {
        decimal(value / 10).push(digit(value % 10))
    }
}

/// The decimal text of an integer.
pub open spec fn signed_decimal(value: int) -> Seq<char> {
    if value < 0 {
        seq!['-'] + decimal((-value) as nat)
    } else {
        decimal(value as nat)
    }
}

fn digit_char(value: u8) -> (r: char)
    requires
        value < 10,
    ensures
        r == digit(value as nat),
{
    (48 + value) as char
}

/// Writes a natural number in decimal.
pub fn decimal_text(value: u64) -> (r: String)
    ensures
        r@ == decimal(value as nat),
    decreases value,
{
    if value < 10 {
        let mut r = String::new();
        r.push(digit_char(value as u8));
        assert(r@ =~= decimal(value as nat));
        r
    } else {
        let mut r = decimal_text(value / 10);
        r.push(digit_char((value % 10) as u8));
        r
    }
}

/// Writes an integer in decimal.
pub fn signed_text(value: i64) -> (r: String)
    ensures
        r@ == signed_decimal(value as int),
{
    if value < 0 {
        let magnitude: u64 = if value == i64::MIN {
            9223372036854775808
        } else {
            (-value) as u64
        };
        let mut r = String::new();
        r.push('-');
        assert(r@ =~= seq!['-']);
        let digits = decimal_text(magnitude);
        r.append(digits.as_str());
        r
    } else {
        decimal_text(value as u64)
    }
}

/// Whether the character is a decimal digit.
pub open spec fn is_digit(character: char) -> bool {
    '0' <= character <= '9'
}

/// Whether every character is a decimal digit.
pub open spec fn all_digits(text: Seq<char>) -> bool {
    forall|i: int| 0 <= i < text.len() ==> is_digit(#[trigger] text[i])
}

/// The number that a sequence of decimal digits writes.
pub open spec fn digits_value(text: Seq<char>) -> nat
    decreases text.len(),
{
    if text.len() == 0 {
        0
    } else {
        (10 * digits_value(text.drop_last()) + (text.last() as int - 48)) as nat
    }
}

/// The natural number that decimal text writes, at most `limit`: one or more
/// digits.
pub open spec fn digits_parsed(text: Seq<char>, limit: nat) -> Option<nat> {
    if text.len() > 0 && all_digits(text) && digits_value(text) <= limit {
        Some(digits_value(text))
    } else {
        None
    }
}

/// The natural number that text writes: digits, perhaps after a plus sign.
pub open spec fn unsigned_parsed(text: Seq<char>, limit: nat) -> Option<nat> {
    if text.len() > 0 && text[0] == '+' {
        digits_parsed(text.skip(1), limit)
    } else {
        digits_parsed(text, limit)
    }
}

/// The integer of 64 bits that text writes: digits, perhaps after a sign.
pub open spec fn signed_parsed(text: Seq<char>) -> Option<int> {
    if text.len() > 0 && text[0] == '-' {
        match digits_parsed(text.skip(1), 9223372036854775808) {
            Some(magnitude) => Some(-(magnitude as int)),
            None => None,
        }
    } else {
        match unsigned_parsed(text, 9223372036854775807) {
            Some(value) => Some(value as int),
            None => None,
        }
    }
}

proof fn lemma_prefix_value(text: Seq<char>, count: int)
    requires
        0 <= count <= text.len(),
        all_digits(text),
    ensures
        digits_value(text.take(count)) <= digits_value(text),
    decreases text.len() - count,
{
    if count < text.len() {
        lemma_prefix_value(text, count + 1);
        assert(text.take(count + 1).drop_last() =~= text.take(count));
        assert(is_digit(text[count]));
        assert(text.take(count + 1).last() == text[count]);
    } else {
        assert(text.take(count) =~= text);
    }
}

/// Reads the digits from `from` on.
fn parse_digits(chars: &Vec<char>, from: usize, limit: u64) -> (r: Option<u64>)
    requires
        from <= chars@.len(),
    ensures
        match r {
            Some(value) => digits_parsed(chars@.skip(from as int), limit as nat) == Some(
                value as nat,
            ),
            None => digits_parsed(chars@.skip(from as int), limit as nat) is None,
        },
{
    let ghost text = chars@.skip(from as int);
    if from == chars.len() {
        return None;
    }
    let mut value: u64 = 0;
    let mut i: usize = from;
    assert(text.take(0) =~= Seq::<char>::empty());
    while i < chars.len()
        invariant
            from <= i <= chars@.len(),
            text == chars@.skip(from as int),
            forall|j: int| 0 <= j < i - from ==> is_digit(#[trigger] text[j]),
            value == digits_value(text.take(i - from)),
            value <= limit,
        decreases chars@.len() - i,
    {
        let c = chars[i];
        assert(text[i - from] == c);
        if c < '0' || c > '9' {
            assert(!is_digit(text[i - from]));
            return None;
        }
        let step: u64 = (c as u64) - 48;
        assert(text.take(i - from + 1).drop_last() =~= text.take(i - from));
        assert(text.take(i - from + 1).last() == c);
        assert(digits_value(text.take(i - from + 1)) == 10 * value + step);
        let next: Option<u64> = match value.checked_mul(10) {
            Some(tens) => tens.checked_add(step),
            None => None,
        };
        match next {
            Some(grown) => {
                if grown > limit {
                    proof {
                        if all_digits(text) {
                            lemma_prefix_value(text, i - from + 1);
                        }
                    }
                    return None;
                }
                value = grown;
            },
            None => {
                proof {
                    if all_digits(text) {
                        lemma_prefix_value(text, i - from + 1);
                    }
                }
                return None;
            },
        }
        i += 1;
    }
    assert(text.take(i - from) =~= text);
    Some(value)
}

/// Reads a natural number of at most `limit`.
pub fn parse_unsigned(text: &str, limit: u64) -> (r: Option<u64>)
    ensures
        match r {
            Some(value) => unsigned_parsed(text@, limit as nat) == Some(value as nat),
            None => unsigned_parsed(text@, limit as nat) is None,
        },
{
    let chars = text::chars_of(text);
    if chars.len() > 0 && chars[0] == '+' {
        parse_digits(&chars, 1, limit)
    } else {
        assert(chars@.skip(0) =~= text@);
        parse_digits(&chars, 0, limit)
    }
}

/// Reads an integer of 64 bits.
pub fn parse_signed(text: &str) -> (r: Option<i64>)
    ensures
        match r {
            Some(value) => signed_parsed(text@) == Some(value as int),
            None => signed_parsed(text@) is None,
        },
{
    let chars = text::chars_of(text);
    if chars.len() > 0 && chars[0] == '-' {
        match parse_digits(&chars, 1, 9223372036854775808) {
            Some(magnitude) => if magnitude == 9223372036854775808 {
                Some(i64::MIN)
            } else {
                Some(-(magnitude as i64))
            },
            None => None,
        }
    } else {
        match parse_unsigned(text, 9223372036854775807) {
            Some(value) => Some(value as i64),
            None => None,
        }
    }
}

/// What a number is written as reads back as that number, where it is not too large.
pub proof fn law_numbers_read_back(value: nat, limit: nat)
    ensures
        decimal(value).len() > 0,
        all_digits(decimal(value)),
        digits_value(decimal(value)) == value,
        unsigned_parsed(decimal(value), limit) == if value <= limit {
            Some(value)
        } else {
            None
        },
    decreases value,
{
    let text = decimal(value);
    if value < 10 {
        assert(text.drop_last() =~= Seq::<char>::empty());
        assert(text.last() as int == 48 + value);
        assert(digits_value(text.drop_last()) == 0);
    } else {
        let front = decimal(value / 10);
        law_numbers_read_back(value / 10, limit);
        assert(text.drop_last() =~= front);
        assert(text.last() as int == 48 + value % 10);
        assert forall|i: int| 0 <= i < text.len() implies is_digit(#[trigger] text[i]) by {
            if i < front.len() {
                assert(is_digit(front[i]));
            }
        }
        assert(value == 10 * (value / 10) + value % 10);
    }
    assert(is_digit(text[0]));
}

/// The same of a number with a sign, as far as a machine word holds it.
pub proof fn law_signed_numbers_read_back(value: int)
    ensures
        signed_parsed(signed_decimal(value)) == if i64::MIN <= value <= i64::MAX {
            Some(value)
        } else {
            None
        },
{
    if value < 0 {
        let text = signed_decimal(value);
        law_numbers_read_back((-value) as nat, 9223372036854775808);
        assert(text.skip(1) =~= decimal((-value) as nat));
        assert(is_digit(decimal((-value) as nat)[0]));
        assert(text[0] == '-');
    } else {
        law_numbers_read_back(value as nat, 9223372036854775807);
        assert(is_digit(decimal(value as nat)[0]));
    }
}

} // verus!

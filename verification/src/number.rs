//! Decimal integers: what a text spells, and the integer types that hold it.
use crate::syntax::{is_digit, MINUS};
use vstd::prelude::*;

verus! {

/// `+`, with which an integer may begin.
pub const PLUS: u8 = 0x2b;

/// Whether every byte of `s` is a decimal digit.
pub open spec fn all_digits(s: Seq<u8>) -> bool {
    forall|i: int| 0 <= i < s.len() ==> is_digit(#[trigger] s[i])
}

/// The number that the decimal digits `s` spell; 0 for no digits.
pub open spec fn digits_value(s: Seq<u8>) -> nat
    decreases s.len(),
{
    if s.len() == 0 {
        0
    } else {
        digits_value(s.drop_last()) * 10 + (s.last() - 0x30) as nat
    }
}

/// The integer that `s` spells: an optional sign and then at least one decimal
/// digit. `None` where `s` is not of that form.
pub open spec fn integer_value(s: Seq<u8>) -> Option<int> {
    if s.len() > 1 && s[0] == MINUS && all_digits(s.skip(1)) {
        Some(-(digits_value(s.skip(1)) as int))
    } else if s.len() > 1 && s[0] == PLUS && all_digits(s.skip(1)) {
        Some(digits_value(s.skip(1)) as int)
    } else if s.len() > 0 && all_digits(s) {
        Some(digits_value(s) as int)
    } else {
        None
    }
}

/// The integer that `s` spells, where it lies between `lowest` and `highest`. A
/// type without negative numbers takes no text that begins with `-`.
pub open spec fn bounded_value(s: Seq<u8>, lowest: int, highest: int) -> Option<int> {
    match integer_value(s) {
        Some(value) => if lowest <= value <= highest && !(lowest == 0 && s[0] == MINUS) {
            Some(value)
        } else {
            None
        },
        None => None,
    }
}

/// More digits never spell a smaller number.
pub proof fn lemma_digits_grow(s: Seq<u8>, k: int)
    requires
        0 <= k <= s.len(),
        all_digits(s),
    ensures
        digits_value(s.take(k)) <= digits_value(s),
    decreases s.len() - k,
{
    if k < s.len() {
        lemma_digits_grow(s, k + 1);
        assert(s.take(k + 1).drop_last() =~= s.take(k));
        assert(is_digit(s[k]));
        assert(s.take(k + 1).last() == s[k]);
    } else {
        assert(s.take(k) =~= s);
    }
}

/// Reads the decimal digits of `bytes` from `start` to `end`, as far as they spell
/// no more than `limit`.
fn parse_digits(bytes: &[u8], start: usize, end: usize, limit: u64) -> (value: Option<u64>)
    requires
        start <= end <= bytes.len(),
    ensures
        value == if all_digits(bytes@.subrange(start as int, end as int)) && digits_value(
            bytes@.subrange(start as int, end as int),
        ) <= limit {
            Some(digits_value(bytes@.subrange(start as int, end as int)) as u64)
        } else {
            None
        },
{
    let ghost digits = bytes@.subrange(start as int, end as int);
    let mut index = start;
    let mut value: u64 = 0;
    while index < end
        invariant
            start <= index <= end <= bytes.len(),
            digits == bytes@.subrange(start as int, end as int),
            all_digits(digits.take(index - start)),
            value == digits_value(digits.take(index - start)),
            value <= limit,
        decreases end - index,
    {
        let byte = bytes[index];
        assert(digits[index - start] == byte);
        if !(0x30 <= byte && byte <= 0x39) {
            return None;
        }
        let digit = (byte - 0x30) as u64;
        proof {
            assert(digits.take(index - start + 1).drop_last() =~= digits.take(index - start));
            assert(digits.take(index - start + 1).last() == byte);
            assert forall|i: int| 0 <= i < index - start + 1 implies is_digit(
                #[trigger] digits.take(index - start + 1)[i],
            ) by {
                if i < index - start {
                    assert(digits.take(index - start)[i] == digits[i]);
                }
            }
        }
        if digit > limit || value > (limit - digit) / 10 {
            proof {
                if all_digits(digits) {
                    lemma_digits_grow(digits, index - start + 1);
                }
            }
            return None;
        }
        value = value * 10 + digit;
        index += 1;
    }
    proof {
        assert(digits.take(index - start) =~= digits);
    }
    Some(value)
}

/// Reads the integer that `bytes` spell from `start` to `end`, if it lies between
/// `lowest` and `highest`.
pub(crate) fn parse_bounded(
    bytes: &[u8],
    start: usize,
    end: usize,
    lowest: i64,
    highest: u64,
) -> (value: Option<i128>)
    requires
        start <= end <= bytes.len(),
        lowest <= 0,
    ensures
        value matches Some(v) ==> bounded_value(
            bytes@.subrange(start as int, end as int),
            lowest as int,
            highest as int,
        ) == Some(v as int),
        value is None ==> bounded_value(
            bytes@.subrange(start as int, end as int),
            lowest as int,
            highest as int,
        ) is None,
{
    let ghost s = bytes@.subrange(start as int, end as int);
    if start == end {
        return None;
    }
    let first = bytes[start];
    assert(s[0] == first);
    if first == MINUS || first == PLUS {
        assert(s.skip(1) =~= bytes@.subrange(start + 1, end as int));
        if end - start < 2 {
            assert(!is_digit(first));
            return None;
        }
        assert(!all_digits(s)) by {
            assert(!is_digit(s[0]));
        }
        if first == MINUS {
            if lowest == 0 {
                return None;
            }
            let limit: u64 = if lowest == i64::MIN {
                0x8000_0000_0000_0000
            } else {
                (-lowest) as u64
            };
            match parse_digits(bytes, start + 1, end, limit) {
                Some(magnitude) => Some(-(magnitude as i128)),
                None => None,
            }
        } else {
            match parse_digits(bytes, start + 1, end, highest) {
                Some(magnitude) => Some(magnitude as i128),
                None => None,
            }
        }
    } else {
        proof {
            if all_digits(s) {
                assert(is_digit(s[0]));
            }
        }
        match parse_digits(bytes, start, end, highest) {
            Some(magnitude) => Some(magnitude as i128),
            None => None,
        }
    }
}

/// An integer type into which a number of a source text can be read.
pub trait Number: Sized {
    /// The least integer of this type.
    spec fn lowest() -> int;

    /// The greatest integer of this type.
    spec fn highest() -> int;

    /// The integer that this value holds.
    spec fn value(&self) -> int;

    /// The least integer of this type.
    fn lowest_bound() -> (bound: i64)
        ensures
            bound == Self::lowest(),
            bound <= 0,
    ;

    /// The greatest integer of this type.
    fn highest_bound() -> (bound: u64)
        ensures
            bound == Self::highest(),
    ;

    /// The value of this type that holds `value`.
    fn from_wide(value: i128) -> (number: Self)
        requires
            Self::lowest() <= value <= Self::highest(),
        ensures
            number.value() == value,
    ;
}

impl Number for i8 {
    open spec fn lowest() -> int {
        i8::MIN as int
    }

    open spec fn highest() -> int {
        i8::MAX as int
    }

    open spec fn value(&self) -> int {
        *self as int
    }

    fn lowest_bound() -> (bound: i64) {
        i8::MIN as i64
    }

    fn highest_bound() -> (bound: u64) {
        i8::MAX as u64
    }

    fn from_wide(value: i128) -> (number: i8) {
        value as i8
    }
}

impl Number for i16 {
    open spec fn lowest() -> int {
        i16::MIN as int
    }

    open spec fn highest() -> int {
        i16::MAX as int
    }

    open spec fn value(&self) -> int {
        *self as int
    }

    fn lowest_bound() -> (bound: i64) {
        i16::MIN as i64
    }

    fn highest_bound() -> (bound: u64) {
        i16::MAX as u64
    }

    fn from_wide(value: i128) -> (number: i16) {
        value as i16
    }
}

impl Number for i32 {
    open spec fn lowest() -> int {
        i32::MIN as int
    }

    open spec fn highest() -> int {
        i32::MAX as int
    }

    open spec fn value(&self) -> int {
        *self as int
    }

    fn lowest_bound() -> (bound: i64) {
        i32::MIN as i64
    }

    fn highest_bound() -> (bound: u64) {
        i32::MAX as u64
    }

    fn from_wide(value: i128) -> (number: i32) {
        value as i32
    }
}

impl Number for i64 {
    open spec fn lowest() -> int {
        i64::MIN as int
    }

    open spec fn highest() -> int {
        i64::MAX as int
    }

    open spec fn value(&self) -> int {
        *self as int
    }

    fn lowest_bound() -> (bound: i64) {
        i64::MIN as i64
    }

    fn highest_bound() -> (bound: u64) {
        i64::MAX as u64
    }

    fn from_wide(value: i128) -> (number: i64) {
        value as i64
    }
}

impl Number for u8 {
    open spec fn lowest() -> int {
        u8::MIN as int
    }

    open spec fn highest() -> int {
        u8::MAX as int
    }

    open spec fn value(&self) -> int {
        *self as int
    }

    fn lowest_bound() -> (bound: i64) {
        u8::MIN as i64
    }

    fn highest_bound() -> (bound: u64) {
        u8::MAX as u64
    }

    fn from_wide(value: i128) -> (number: u8) {
        value as u8
    }
}

impl Number for u16 {
    open spec fn lowest() -> int {
        u16::MIN as int
    }

    open spec fn highest() -> int {
        u16::MAX as int
    }

    open spec fn value(&self) -> int {
        *self as int
    }

    fn lowest_bound() -> (bound: i64) {
        u16::MIN as i64
    }

    fn highest_bound() -> (bound: u64) {
        u16::MAX as u64
    }

    fn from_wide(value: i128) -> (number: u16) {
        value as u16
    }
}

impl Number for u32 {
    open spec fn lowest() -> int {
        u32::MIN as int
    }

    open spec fn highest() -> int {
        u32::MAX as int
    }

    open spec fn value(&self) -> int {
        *self as int
    }

    fn lowest_bound() -> (bound: i64) {
        u32::MIN as i64
    }

    fn highest_bound() -> (bound: u64) {
        u32::MAX as u64
    }

    fn from_wide(value: i128) -> (number: u32) {
        value as u32
    }
}

impl Number for u64 {
    open spec fn lowest() -> int {
        u64::MIN as int
    }

    open spec fn highest() -> int {
        u64::MAX as int
    }

    open spec fn value(&self) -> int {
        *self as int
    }

    fn lowest_bound() -> (bound: i64) {
        u64::MIN as i64
    }

    fn highest_bound() -> (bound: u64) {
        u64::MAX as u64
    }

    fn from_wide(value: i128) -> (number: u64) {
        value as u64
    }
}

/// Reads the integer that `bytes` spell as a `T`, if `T` can hold it.
pub fn parse<T: Number>(bytes: &[u8]) -> (number: Option<T>)
    ensures
        match bounded_value(bytes@, T::lowest(), T::highest()) {
            Some(value) => number matches Some(n) && n.value() == value,
            None => number is None,
        },
{
    assert(bytes@.subrange(0, bytes@.len() as int) =~= bytes@);
    match parse_bounded(bytes, 0, bytes.len(), T::lowest_bound(), T::highest_bound()) {
        Some(value) => Some(T::from_wide(value)),
        None => None,
    }
}

/// The character of a decimal digit.
pub open spec fn digit_char(digit: int) -> char {
    if digit == 0 {
        '0'
    } else if digit == 1 {
        '1'
    } else if digit == 2 {
        '2'
    } else if digit == 3 {
        '3'
    } else if digit == 4 {
        '4'
    } else if digit == 5 {
        '5'
    } else if digit == 6 {
        '6'
    } else if digit == 7 {
        '7'
    } else if digit == 8 {
        '8'
    } else {
        '9'
    }
}

/// The decimal digits that spell `value`, without a leading zero.
pub open spec fn decimal_chars(value: nat) -> Seq<char>
    decreases value,
{
    if value < 10 {
        seq![digit_char(value as int)]
    } else {
        decimal_chars(value / 10).push(digit_char((value % 10) as int))
    }
}

/// The text of one decimal digit.
fn digit_text(digit: usize) -> (text: &'static str)
    requires
        digit < 10,
    ensures
        text@ == seq![digit_char(digit as int)],
{
    proof {
        reveal_strlit("0");
        reveal_strlit("1");
        reveal_strlit("2");
        reveal_strlit("3");
        reveal_strlit("4");
        reveal_strlit("5");
        reveal_strlit("6");
        reveal_strlit("7");
        reveal_strlit("8");
        reveal_strlit("9");
    }
    let text = if digit == 0 {
        "0"
    } else if digit == 1 {
        "1"
    } else if digit == 2 {
        "2"
    } else if digit == 3 {
        "3"
    } else if digit == 4 {
        "4"
    } else if digit == 5 {
        "5"
    } else if digit == 6 {
        "6"
    } else if digit == 7 {
        "7"
    } else if digit == 8 {
        "8"
    } else {
        "9"
    };
    assert(text@ =~= seq![digit_char(digit as int)]);
    text
}

/// Spells `value` in decimal digits.
pub fn decimal_text(value: usize) -> (text: String)
    ensures
        text@ == decimal_chars(value as nat),
    decreases value,
{
    if value < 10 {
        digit_text(value).to_owned()
    } else {
        let mut text = decimal_text(value / 10);
        text.append(digit_text(value % 10));
        assert(text@ =~= decimal_chars(value as nat));
        text
    }
}

} // verus!

//! Rules for carrying host values in the value model.
//!
//! The value model has no unsigned integers wider than eight bits, so wider
//! ones are carried in a signed kind that holds them, or as high-precision
//! text where none does. In the other direction a value is taken for a host
//! integer only where its kind and its number allow it. A byte string is an
//! array of unsigned 8-bit integers, and an object with a single entry can
//! stand for a variant of a tagged union.

use vstd::prelude::*;
use vstd::string::is_ascii_spec_bytes;
use vstd::string::{StrSliceExecFns, StringExecFns};
use vstd::utf8::*;

use crate::deserializer::{exponent_position, is_digit, is_high_precision};
use crate::value::{lemma_view_array, view_all, UbjsonValue, ValueModel};

verus! {

/// The character of a decimal digit.
pub open spec fn digit_char(digit: nat) -> char {
    ((0x30 + digit) as u8) as char
}

/// A number in decimal, without sign and without leading zeros.
pub open spec fn decimal(number: nat) -> Seq<char>
    decreases number,
{
    if number < 10 {
        seq![digit_char(number)]
    } else {
        decimal(number / 10).push(digit_char(number % 10))
    }
}

/// The number that decimal digits spell.
pub open spec fn digits_value(digits: Seq<char>) -> nat
    decreases digits.len(),
{
    if digits.len() == 0 {
        0
    } else {
        digits_value(digits.drop_last()) * 10 + ((digits.last() as u8 - 0x30) as nat)
    }
}

/// A text without the plus sign that it may start with.
pub open spec fn unsigned_digits(text: Seq<char>) -> Seq<char> {
    if text.len() > 0 && text[0] == '+' {
        text.subrange(1, text.len() as int)
    } else {
        text
    }
}

/// The number that a text spells in decimal: digits, at least one, with an
/// optional plus sign before them.
pub open spec fn parse_decimal(text: Seq<char>) -> Option<nat> {
    let digits = unsigned_digits(text);
    if digits.len() > 0 && forall|i: int| 0 <= i < digits.len() ==> is_digit(#[trigger] digits[i]) {
        Some(digits_value(digits))
    } else {
        None
    }
}

/// The integer that a value of one of the five integer kinds holds.
pub open spec fn integer_of(value: ValueModel) -> Option<int> {
    match value {
        ValueModel::Int8(n) => Some(n as int),
        ValueModel::UInt8(n) => Some(n as int),
        ValueModel::Int16(n) => Some(n as int),
        ValueModel::Int32(n) => Some(n as int),
        ValueModel::Int64(n) => Some(n as int),
        _ => None,
    }
}

/// How wide a value's integer kind is, in bytes. Anything else has width
/// zero.
pub open spec fn integer_rank(value: ValueModel) -> nat {
    match value {
        ValueModel::Int8(_) => 1,
        ValueModel::UInt8(_) => 1,
        ValueModel::Int16(_) => 2,
        ValueModel::Int32(_) => 4,
        ValueModel::Int64(_) => 8,
        _ => 0,
    }
}

/// The text of one decimal digit.
fn digit_text(digit: u64) -> (text: &'static str)
    requires
        digit < 10,
    ensures
        text@ == seq![digit_char(digit as nat)],
{
    proof {
        reveal_strlit("0");
        reveal_strlit("1");
        reveal_strlit("2");
        reveal_strlit("3");
        reveal_strlit("4");
        reveal_strlit("5");
        reveal_strlit("6");
        reveal_strlit("7");
        reveal_strlit("8");
        reveal_strlit("9");
    }
    let text = if digit == 0 {
        "0"
    } else if digit == 1 {
        "1"
    } else if digit == 2 {
        "2"
    } else if digit == 3 {
        "3"
    } else if digit == 4 {
        "4"
    } else if digit == 5 {
        "5"
    } else if digit == 6 {
        "6"
    } else if digit == 7 {
        "7"
    } else if digit == 8 {
        "8"
    } else {
        "9"
    };
    assert(text@ =~= seq![digit_char(digit as nat)]);
    text
}

/// A number in decimal.
pub fn decimal_text(number: u64) -> (text: String)
    ensures
        text@ == decimal(number as nat),
    decreases number,
{
    if number < 10 {
        String::from_str(digit_text(number))
    } else {
        let front = decimal_text(number / 10);
        let text = front.concat(digit_text(number % 10));
        assert(text@ =~= decimal((number / 10) as nat).push(digit_char((number % 10) as nat)));
        text
    }
}

/// An unsigned 16-bit integer is carried as a signed 32-bit one.
pub fn from_u16(number: u16) -> (value: UbjsonValue)
    ensures
        value == UbjsonValue::Int32(number as i32),
{
    UbjsonValue::Int32(number as i32)
}

/// An unsigned 32-bit integer is carried as a signed 64-bit one.
pub fn from_u32(number: u32) -> (value: UbjsonValue)
    ensures
        value == UbjsonValue::Int64(number as i64),
{
    UbjsonValue::Int64(number as i64)
}

/// An unsigned 64-bit integer is carried as a signed one where that holds
/// it, and as high-precision text in decimal where it does not.
pub fn from_u64(number: u64) -> (value: UbjsonValue)
    ensures
        number <= i64::MAX ==> value == UbjsonValue::Int64(number as i64),
        number > i64::MAX ==> value@ == ValueModel::HighPrecision(decimal(number as nat)),
{
    if number <= 0x7FFF_FFFF_FFFF_FFFF {
        UbjsonValue::Int64(number as i64)
    } else {
        UbjsonValue::HighPrecision(decimal_text(number))
    }
}

/// A byte string is carried as an array of unsigned 8-bit integers.
pub fn from_bytes(bytes: &[u8]) -> (value: UbjsonValue)
    ensures
        value@ == ValueModel::Array(Seq::new(bytes@.len(), |i: int| ValueModel::UInt8(bytes@[i]))),
{
    let mut items: Vec<UbjsonValue> = Vec::new();
    let mut i: usize = 0;
    while i < bytes.len()
        invariant
            i <= bytes@.len(),
            items@.len() == i,
            forall|k: int| 0 <= k < i ==> #[trigger] items@[k] == UbjsonValue::UInt8(bytes@[k]),
        decreases bytes@.len() - i,
    {
        items.push(UbjsonValue::UInt8(bytes[i]));
        i = i + 1;
    }
    proof {
        lemma_view_array(items);
        assert(view_all(items@) =~= Seq::new(bytes@.len(), |i: int| ValueModel::UInt8(bytes@[i])));
    }
    UbjsonValue::Array(items)
}

/// The signed 8-bit integer that a value holds: that of an Int8, or that of
/// a UInt8 that is small enough.
pub fn to_i8(value: &UbjsonValue) -> (number: Option<i8>)
    ensures
        match number {
            Some(n) => integer_rank(value@) == 1 && integer_of(value@) == Some(n as int),
            None => !(integer_rank(value@) == 1 && integer_of(value@)->0 <= i8::MAX),
        },
{
    match value {
        UbjsonValue::Int8(n) => Some(*n),
        UbjsonValue::UInt8(n) => if *n <= 0x7F {
            Some(*n as i8)
        } else {
            None
        },
        _ => None,
    }
}

/// The signed 16-bit integer that a value holds: that of any integer kind
/// of at most two bytes.
pub fn to_i16(value: &UbjsonValue) -> (number: Option<i16>)
    ensures
        match number {
            Some(n) => 1 <= integer_rank(value@) <= 2 && integer_of(value@) == Some(n as int),
            None => !(1 <= integer_rank(value@) <= 2),
        },
{
    match value {
        UbjsonValue::Int8(n) => Some(*n as i16),
        UbjsonValue::UInt8(n) => Some(*n as i16),
        UbjsonValue::Int16(n) => Some(*n),
        _ => None,
    }
}

/// The signed 32-bit integer that a value holds: that of any integer kind
/// of at most four bytes.
pub fn to_i32(value: &UbjsonValue) -> (number: Option<i32>)
    ensures
        match number {
            Some(n) => 1 <= integer_rank(value@) <= 4 && integer_of(value@) == Some(n as int),
            None => !(1 <= integer_rank(value@) <= 4),
        },
{
    match value {
        UbjsonValue::Int8(n) => Some(*n as i32),
        UbjsonValue::UInt8(n) => Some(*n as i32),
        UbjsonValue::Int16(n) => Some(*n as i32),
        UbjsonValue::Int32(n) => Some(*n),
        _ => None,
    }
}

/// The signed 64-bit integer that a value holds: that of any integer kind.
pub fn to_i64(value: &UbjsonValue) -> (number: Option<i64>)
    ensures
        match number {
            Some(n) => integer_of(value@) == Some(n as int),
            None => integer_of(value@) is None,
        },
{
    match value {
        UbjsonValue::Int8(n) => Some(*n as i64),
        UbjsonValue::UInt8(n) => Some(*n as i64),
        UbjsonValue::Int16(n) => Some(*n as i64),
        UbjsonValue::Int32(n) => Some(*n as i64),
        UbjsonValue::Int64(n) => Some(*n),
        _ => None,
    }
}

/// The unsigned 8-bit integer that a value holds: that of a UInt8, or that
/// of an Int8 that is not negative.
pub fn to_u8(value: &UbjsonValue) -> (number: Option<u8>)
    ensures
        match number {
            Some(n) => integer_rank(value@) == 1 && integer_of(value@) == Some(n as int),
            None => !(integer_rank(value@) == 1 && integer_of(value@)->0 >= 0),
        },
{
    match value {
        UbjsonValue::UInt8(n) => Some(*n),
        UbjsonValue::Int8(n) => if *n >= 0 {
            Some(*n as u8)
        } else {
            None
        },
        _ => None,
    }
}

/// The unsigned 16-bit integer that a value holds: that of any integer kind
/// of at most four bytes whose number fits.
pub fn to_u16(value: &UbjsonValue) -> (number: Option<u16>)
    ensures
        match number {
            Some(n) => 1 <= integer_rank(value@) <= 4 && integer_of(value@) == Some(n as int),
            None => !(1 <= integer_rank(value@) <= 4 && 0 <= integer_of(value@)->0 <= u16::MAX),
        },
{
    match value {
        UbjsonValue::UInt8(n) => Some(*n as u16),
        UbjsonValue::Int8(n) => if *n >= 0 {
            Some(*n as u16)
        } else {
            None
        },
        UbjsonValue::Int16(n) => if *n >= 0 {
            Some(*n as u16)
        } else {
            None
        },
        UbjsonValue::Int32(n) => if *n >= 0 && *n <= 0xFFFF {
            Some(*n as u16)
        } else {
            None
        },
        _ => None,
    }
}

/// The unsigned 32-bit integer that a value holds: that of any integer kind
/// whose number fits.
pub fn to_u32(value: &UbjsonValue) -> (number: Option<u32>)
    ensures
        match number {
            Some(n) => integer_of(value@) == Some(n as int),
            None => !(integer_of(value@) is Some && 0 <= integer_of(value@)->0 <= u32::MAX),
        },
{
    match value {
        UbjsonValue::UInt8(n) => Some(*n as u32),
        UbjsonValue::Int8(n) => if *n >= 0 {
            Some(*n as u32)
        } else {
            None
        },
        UbjsonValue::Int16(n) => if *n >= 0 {
            Some(*n as u32)
        } else {
            None
        },
        UbjsonValue::Int32(n) => if *n >= 0 {
            Some(*n as u32)
        } else {
            None
        },
        UbjsonValue::Int64(n) => if *n >= 0 && *n <= 0xFFFF_FFFF {
            Some(*n as u32)
        } else {
            None
        },
        _ => None,
    }
}

/// The number that decimal digits spell does not get smaller as digits are
/// added.
proof fn lemma_digits_value_grows(digits: Seq<char>, front: int)
    requires
        0 <= front <= digits.len(),
        forall|i: int| 0 <= i < digits.len() ==> is_digit(#[trigger] digits[i]),
    ensures
        digits_value(digits.take(front)) <= digits_value(digits),
    decreases digits.len() - front,
{
    if front < digits.len() {
        lemma_digits_value_grows(digits, front + 1);
        assert(digits.take(front + 1).drop_last() == digits.take(front));
        assert(is_digit(digits[front]));
        assert(digits.take(front + 1).last() == digits[front]);
    } else {
        assert(digits.take(front) == digits);
    }
}

/// A text that spells a number in decimal is ASCII.
proof fn lemma_decimal_is_ascii(text: Seq<char>)
    requires
        parse_decimal(text) is Some,
    ensures
        is_ascii_chars(text),
{
    let digits = unsigned_digits(text);
    assert forall|i: int| 0 <= i < text.len() implies '\0' <= #[trigger] text[i] <= '\u{7f}' by {
        if text[0] == '+' {
            if i > 0 {
                assert(is_digit(digits[i - 1]));
                assert(digits[i - 1] == text[i]);
            }
        } else {
            assert(is_digit(digits[i]));
        }
    }
}

/// Reads a text as an unsigned 64-bit integer in decimal: digits, at least
/// one, with an optional plus sign before them, that spell a number which
/// fits.
pub fn decimal_to_u64(text: &str) -> (number: Option<u64>)
    ensures
        match number {
            Some(n) => parse_decimal(text@) == Some(n as nat),
            None => parse_decimal(text@) is None || parse_decimal(text@)->0 > u64::MAX,
        },
{
    broadcast use is_ascii_spec_bytes;

    let ghost chars = text@;
    if !text.is_ascii() {
        proof {
            if parse_decimal(chars) is Some {
                lemma_decimal_is_ascii(chars);
            }
        }
        return None;
    }
    let bytes = text.as_bytes();
    let n = bytes.len();
    assert(n == chars.len());
    let start: usize = if n > 0 && bytes[0] == 0x2B {
        1
    } else {
        0
    };
    let ghost digits = unsigned_digits(chars);
    proof {
        if n > 0 {
            assert(bytes@[0] == chars[0] as u8);
            assert('\0' <= chars[0] <= '\u{7f}');
        }
        assert(digits =~= chars.subrange(start as int, n as int));
    }
    if start == n {
        return None;
    }
    let mut value: u64 = 0;
    let mut i: usize = start;
    assert(digits.take(0) =~= Seq::<char>::empty());
    while i < n
        invariant
            start <= i <= n,
            start < n,
            n == bytes@.len(),
            n == chars.len(),
            is_ascii_chars(chars),
            forall|k: int| 0 <= k < n ==> bytes@[k] == chars[k] as u8,
            chars == text@,
            digits == unsigned_digits(chars),
            digits == chars.subrange(start as int, n as int),
            forall|k: int| 0 <= k < i - start ==> is_digit(#[trigger] digits[k]),
            value == digits_value(digits.take(i - start)),
        decreases n - i,
    {
        let byte = bytes[i];
        assert(digits[i - start] == chars[i as int]);
        if !(0x30 <= byte && byte <= 0x39) {
            assert(!is_digit(digits[i - start]));
            return None;
        }
        assert(is_digit(digits[i - start]));
        let digit = (byte - 0x30) as u64;
        proof {
            assert(digits.take(i - start + 1).drop_last() == digits.take(i - start));
            assert(digits.take(i - start + 1).last() == digits[i - start]);
        }
        if value > (u64::MAX - digit) / 10 {
            proof {
                assert(value * 10 + digit > u64::MAX);
                assert(digits_value(digits.take(i - start + 1)) == value * 10 + digit);
                if forall|k: int| 0 <= k < digits.len() ==> is_digit(#[trigger] digits[k]) {
                    lemma_digits_value_grows(digits, i - start + 1);
                }
            }
            return None;
        }
        value = value * 10 + digit;
        i = i + 1;
    }
    assert(digits.take(n - start) == digits);
    Some(value)
}

/// The unsigned 64-bit integer that a value holds: that of any integer kind
/// that is not negative, or the one that high-precision text spells in
/// decimal.
pub fn to_u64(value: &UbjsonValue) -> (number: Option<u64>)
    ensures
        match number {
            Some(n) => integer_of(value@) == Some(n as int) || (value@ is HighPrecision
                && parse_decimal(value@->HighPrecision_0) == Some(n as nat)),
            None => !(integer_of(value@) is Some && 0 <= integer_of(value@)->0) && !(value@
                is HighPrecision && parse_decimal(value@->HighPrecision_0) is Some
                && parse_decimal(value@->HighPrecision_0)->0 <= u64::MAX),
        },
{
    match value {
        UbjsonValue::UInt8(n) => Some(*n as u64),
        UbjsonValue::Int8(n) => if *n >= 0 {
            Some(*n as u64)
        } else {
            None
        },
        UbjsonValue::Int16(n) => if *n >= 0 {
            Some(*n as u64)
        } else {
            None
        },
        UbjsonValue::Int32(n) => if *n >= 0 {
            Some(*n as u64)
        } else {
            None
        },
        UbjsonValue::Int64(n) => if *n >= 0 {
            Some(*n as u64)
        } else {
            None
        },
        UbjsonValue::HighPrecision(text) => decimal_to_u64(text.as_str()),
        _ => None,
    }
}

/// The byte string that a value holds: an array of which every element is
/// a UInt8, or an Int8 that is not negative.
pub fn to_bytes(value: &UbjsonValue) -> (bytes: Option<Vec<u8>>)
    ensures
        match bytes {
            Some(b) => value@ is Array && b@.len() == value@->Array_0.len() && forall|i: int|
                0 <= i < b@.len() ==> integer_rank(#[trigger] value@->Array_0[i]) == 1
                    && integer_of(value@->Array_0[i]) == Some(b@[i] as int),
            None => !(value@ is Array) || exists|i: int|
                0 <= i < value@->Array_0.len() && !(integer_rank(#[trigger] value@->Array_0[i])
                    == 1 && integer_of(value@->Array_0[i])->0 >= 0),
        },
{
    match value {
        UbjsonValue::Array(items) => {
            proof {
                lemma_view_array(*items);
            }
            let mut bytes: Vec<u8> = Vec::new();
            let mut i: usize = 0;
            while i < items.len()
                invariant
                    i <= items.len(),
                    bytes@.len() == i,
                    value@ == ValueModel::Array(view_all(items@)),
                    forall|k: int|
                        0 <= k < i ==> integer_rank(#[trigger] view_all(items@)[k]) == 1
                            && integer_of(view_all(items@)[k]) == Some(bytes@[k] as int),
                decreases items.len() - i,
            {
                match to_u8(&items[i]) {
                    Some(byte) => {
                        assert(integer_rank(view_all(items@)[i as int]) == 1);
                        bytes.push(byte);
                    },
                    None => {
                        assert(!(integer_rank(view_all(items@)[i as int]) == 1 && integer_of(
                            view_all(items@)[i as int],
                        )->0 >= 0));
                        return None;
                    },
                }
                i = i + 1;
            }
            Some(bytes)
        },
        _ => None,
    }
}

/// The character that a value holds: that of a Char, or the only one of a
/// String that has exactly one.
pub fn to_char(value: &UbjsonValue) -> (c: Option<char>)
    ensures
        match c {
            Some(c) => value@ == ValueModel::Char(c) || value@ == ValueModel::String(seq![c]),
            None => !(value@ is Char) && !(value@ is String && value@->String_0.len() == 1),
        },
{
    match value {
        UbjsonValue::Char(c) => Some(*c),
        UbjsonValue::String(text) => {
            let text = text.as_str();
            if text.unicode_len() == 1 {
                let c = text.get_char(0);
                assert(text@ =~= seq![c]);
                Some(c)
            } else {
                None
            }
        },
        _ => None,
    }
}

/// Whether a value can stand for a variant of a tagged union with a
/// payload: it is an object with a single entry, whose key names the
/// variant.
pub fn is_variant(value: &UbjsonValue) -> (result: bool)
    ensures
        result == (value@ is Object && value@->Object_0.len() == 1),
{
    match value {
        UbjsonValue::Object(map) => map.len() == 1,
        _ => false,
    }
}

/// A number in decimal consists of digits, at least one, and spells the
/// number.
pub proof fn lemma_decimal_spells_number(number: nat)
    ensures
        decimal(number).len() >= 1,
        forall|i: int| 0 <= i < decimal(number).len() ==> is_digit(#[trigger] decimal(number)[i]),
        digits_value(decimal(number)) == number,
    decreases number,
{
    if number < 10 {
        let text = decimal(number);
        assert(text.drop_last() =~= Seq::<char>::empty());
        assert(digits_value(text.drop_last()) == 0);
    } else {
        lemma_decimal_spells_number(number / 10);
        let front = decimal(number / 10);
        let text = front.push(digit_char(number % 10));
        assert(text.drop_last() =~= front);
        assert forall|i: int| 0 <= i < text.len() implies is_digit(#[trigger] text[i]) by {
            if i < front.len() {
                assert(text[i] == front[i]);
            }
        }
    }
}

/// Without an exponent mark in it, a text has its first exponent mark at
/// its end.
proof fn lemma_no_exponent_mark(text: Seq<char>, from: int)
    requires
        0 <= from <= text.len(),
        forall|i: int| 0 <= i < text.len() ==> is_digit(#[trigger] text[i]),
    ensures
        exponent_position(text, from) == text.len(),
    decreases text.len() - from,
{
    if from < text.len() {
        assert(is_digit(text[from]));
        lemma_no_exponent_mark(text, from + 1);
    }
}

/// What is written for a number is read back as that number, and obeys the
/// grammar of high-precision numbers: the text of an unsigned integer that
/// does not fit a signed one is a high-precision number that decoding
/// accepts.
pub proof fn lemma_decimal_round_trip(number: nat)
    ensures
        parse_decimal(decimal(number)) == Some(number),
        is_high_precision(decimal(number)),
{
    let text = decimal(number);
    lemma_decimal_spells_number(number);
    assert(is_digit(text[0]));
    assert(unsigned_digits(text) == text);
    lemma_no_exponent_mark(text, 0);
    assert(crate::deserializer::mantissa_start(text) == 0);
}

} // verus!

//! Decoding of path, query and header parameters.
use vstd::prelude::*;
use vstd::string::StringSliceAdditionalSpecFns;
#[allow(unused_imports)]
use vstd::utf8::encode_utf8;

#[allow(unused_imports)]
use crate::params::{all_values, last_value, query_pairs, texts};
use crate::params::QueryParams;
#[allow(unused_imports)]
use crate::response::text_of;
#[allow(unused_imports)]
use crate::server::{all_digits, digits_value, is_digit, lemma_decimal_bytes};
#[allow(unused_imports)]
use crate::text::{cut, decimal, split, utf8_text};
use crate::text::{same_bytes, same_text, split_once, text_of_bytes, Pieces};

verus! {

/// A parameter that could not be decoded.
#[derive(Clone, Copy, Debug, PartialEq, Eq, Structural)]
pub struct ExtractError;

impl ExtractError {
    pub fn to_string(&self) -> (message: String)
        ensures
            message@ == "invalid HTTP API parameter"@,
    {
        String::from_str("invalid HTTP API parameter")
    }
}

/// Decodes one `:capture` of a route's path.
pub trait FromPath<'a>: Sized {
    fn from_path(value: &'a str) -> Result<Self, ExtractError>;
}

/// Decodes one value of a query string, as it was sent.
pub trait FromQuery<'a>: Sized {
    fn from_query(value: &'a str) -> Result<Self, ExtractError>;
}

/// Decodes the value of a header.
pub trait FromHeader<'a>: Sized {
    fn from_header(value: &'a [u8]) -> Result<Self, ExtractError>;
}

/// The number that one or more decimal digits write.
pub open spec fn magnitude(digits: Seq<u8>) -> Option<nat> {
    if digits.len() > 0 && all_digits(digits) {
        Some(digits_value(digits))
    } else {
        None
    }
}

/// The number that digits behind an optional plus sign write, if it is not
/// larger than `max`.
pub open spec fn unsigned_number(text: Seq<u8>, max: int) -> Option<int> {
    let digits = if text.len() > 0 && text[0] == 43 {
        text.skip(1)
    } else {
        text
    };
    match magnitude(digits) {
        Some(number) => if number <= max {
            Some(number as int)
        } else {
            None
        },
        None => None,
    }
}

/// The number that digits behind an optional sign write, if it is within the
/// bounds.
pub open spec fn signed_number(text: Seq<u8>, min: int, max: int) -> Option<int> {
    let negative = text.len() > 0 && text[0] == 45;
    let digits = if text.len() > 0 && (text[0] == 43 || text[0] == 45) {
        text.skip(1)
    } else {
        text
    };
    match magnitude(digits) {
        Some(number) => {
            let value = if negative {
                -number
            } else {
                number as int
            };
            if min <= value <= max {
                Some(value)
            } else {
                None
            }
        },
        None => None,
    }
}

/// The truth value that a text names.
pub open spec fn truth(text: Seq<u8>) -> Option<bool> {
    if text == "true".spec_bytes() {
        Some(true)
    } else if text == "false".spec_bytes() {
        Some(false)
    } else {
        None
    }
}

fn parse_magnitude(digits: &[u8]) -> (number: Option<u128>)
    ensures
        match number {
            Some(number) => magnitude(digits@) == Some(number as nat),
            None => match magnitude(digits@) {
                Some(number) => number > u128::MAX,
                None => true,
            },
        },
{
    if digits.len() == 0 {
        return None;
    }
    let mut i: usize = 0;
    while i < digits.len()
        invariant
            0 <= i <= digits@.len(),
            forall|j: int| 0 <= j < i ==> is_digit(#[trigger] digits@[j]),
        decreases digits@.len() - i,
    {
        if digits[i] < 48 || digits[i] > 57 {
            assert(!is_digit(digits@[i as int]));
            return None;
        }
        i += 1;
    }
    let mut number: u128 = 0;
    let mut j: usize = 0;
    while j < digits.len()
        invariant
            0 <= j <= digits@.len(),
            digits@.len() > 0,
            all_digits(digits@),
            number == digits_value(digits@.take(j as int)),
        decreases digits@.len() - j,
    {
        proof {
            assert(digits@.take(j + 1).drop_last() =~= digits@.take(j as int));
            crate::server::lemma_digits_value_grows(digits@, j + 1);
            assert(is_digit(digits@[j as int]));
        }
        let digit: u128 = (digits[j] - 48) as u128;
        number = match number.checked_mul(10) {
            Some(tenfold) => match tenfold.checked_add(digit) {
                Some(next) => next,
                None => {
                    return None;
                },
            },
            None => {
                return None;
            },
        };
        j += 1;
    }
    assert(digits@.take(j as int) =~= digits@);
    Some(number)
}

fn parse_unsigned(text: &[u8], max: u128) -> (number: Option<u128>)
    ensures
        match number {
            Some(number) => unsigned_number(text@, max as int) == Some(number as int),
            None => unsigned_number(text@, max as int) is None,
        },
{
    let digits = if text.len() > 0 && text[0] == 43 {
        let rest = &text[1..text.len()];
        assert(rest@ =~= text@.skip(1));
        rest
    } else {
        text
    };
    match parse_magnitude(digits) {
        Some(number) => if number <= max {
            Some(number)
        } else {
            None
        },
        None => None,
    }
}

fn parse_signed(text: &[u8], min: i128, max: i128) -> (number: Option<i128>)
    ensures
        match number {
            Some(number) => signed_number(text@, min as int, max as int) == Some(number as int),
            None => signed_number(text@, min as int, max as int) is None,
        },
{
    let signed = text.len() > 0 && (text[0] == 43 || text[0] == 45);
    let negative = text.len() > 0 && text[0] == 45;
    let digits = if signed {
        let rest = &text[1..text.len()];
        assert(rest@ =~= text@.skip(1));
        rest
    } else {
        text
    };
    let number: u128 = match parse_magnitude(digits) {
        Some(number) => number,
        None => {
            return None;
        },
    };
    let limit: u128 = 170141183460469231731687303715884105728;
    let value: i128 = if number < limit {
        if negative {
            -(number as i128)
        } else {
            number as i128
        }
    } else if negative && number == limit {
        i128::MIN
    } else {
        return None;
    };
    if min <= value && value <= max {
        Some(value)
    } else {
        None
    }
}

fn parse_truth(text: &[u8]) -> (truth_value: Option<bool>)
    ensures
        truth_value == truth(text@),
{
    if same_bytes(text, "true".as_bytes()) {
        Some(true)
    } else if same_bytes(text, "false".as_bytes()) {
        Some(false)
    } else {
        None
    }
}

impl<'a> FromPath<'a> for &'a str {
    fn from_path(value: &'a str) -> (parsed: Result<Self, ExtractError>)
        ensures
            parsed == Ok::<&str, ExtractError>(value),
    {
        Ok(value)
    }
}

impl<'a> FromQuery<'a> for &'a str {
    fn from_query(value: &'a str) -> (parsed: Result<Self, ExtractError>)
        ensures
            parsed == Ok::<&str, ExtractError>(value),
    {
        Ok(value)
    }
}

impl<'a> FromHeader<'a> for &'a str {
    fn from_header(value: &'a [u8]) -> (parsed: Result<Self, ExtractError>)
        ensures
            match parsed {
                Ok(text) => utf8_text(value@) == Some(text@),
                Err(_) => utf8_text(value@) is None,
            },
    {
        match text_of_bytes(value) {
            Some(text) => Ok(text),
            None => Err(ExtractError),
        }
    }
}

impl FromPath<'_> for String {
    fn from_path(value: &str) -> (parsed: Result<Self, ExtractError>)
        ensures
            parsed matches Ok(text) && text@ == value@,
    {
        Ok(value.to_owned())
    }
}

impl FromQuery<'_> for String {
    fn from_query(value: &str) -> (parsed: Result<Self, ExtractError>)
        ensures
            parsed matches Ok(text) && text@ == value@,
    {
        Ok(value.to_owned())
    }
}

impl FromHeader<'_> for String {
    fn from_header(value: &[u8]) -> (parsed: Result<Self, ExtractError>)
        ensures
            match parsed {
                Ok(text) => utf8_text(value@) == Some(text@),
                Err(_) => utf8_text(value@) is None,
            },
    {
        match text_of_bytes(value) {
            Some(text) => Ok(text.to_owned()),
            None => Err(ExtractError),
        }
    }
}

impl FromPath<'_> for bool {
    fn from_path(value: &str) -> (parsed: Result<Self, ExtractError>)
        ensures
            parsed == (match truth(value.spec_bytes()) {
                Some(number) => Ok::<bool, ExtractError>(number),
                None => Err(ExtractError),
            }),
    {
        match parse_truth(value.as_bytes()) {
            Some(number) => Ok(number),
            None => Err(ExtractError),
        }
    }
}

impl FromQuery<'_> for bool {
    fn from_query(value: &str) -> (parsed: Result<Self, ExtractError>)
        ensures
            parsed == (match truth(value.spec_bytes()) {
                Some(number) => Ok::<bool, ExtractError>(number),
                None => Err(ExtractError),
            }),
    {
        match parse_truth(value.as_bytes()) {
            Some(number) => Ok(number),
            None => Err(ExtractError),
        }
    }
}

impl FromHeader<'_> for bool {
    fn from_header(value: &[u8]) -> (parsed: Result<Self, ExtractError>)
        ensures
            parsed == (match truth(value@) {
                Some(number) => Ok::<bool, ExtractError>(number),
                None => Err(ExtractError),
            }),
    {
        match parse_truth(value) {
            Some(number) => Ok(number),
            None => Err(ExtractError),
        }
    }
}

impl FromPath<'_> for u8 {
    fn from_path(value: &str) -> (parsed: Result<Self, ExtractError>)
        ensures
            parsed == (match unsigned_number(value.spec_bytes(), u8::MAX as int) {
                Some(number) => Ok::<u8, ExtractError>(number as u8),
                None => Err(ExtractError),
            }),
    {
        match parse_unsigned(value.as_bytes(), u8::MAX as u128) {
            Some(number) => Ok(number as u8),
            None => Err(ExtractError),
        }
    }
}

impl FromQuery<'_> for u8 {
    fn from_query(value: &str) -> (parsed: Result<Self, ExtractError>)
        ensures
            parsed == (match unsigned_number(value.spec_bytes(), u8::MAX as int) {
                Some(number) => Ok::<u8, ExtractError>(number as u8),
                None => Err(ExtractError),
            }),
    {
        match parse_unsigned(value.as_bytes(), u8::MAX as u128) {
            Some(number) => Ok(number as u8),
            None => Err(ExtractError),
        }
    }
}

impl FromHeader<'_> for u8 {
    fn from_header(value: &[u8]) -> (parsed: Result<Self, ExtractError>)
        ensures
            parsed == (match unsigned_number(value@, u8::MAX as int) {
                Some(number) => Ok::<u8, ExtractError>(number as u8),
                None => Err(ExtractError),
            }),
    {
        match parse_unsigned(value, u8::MAX as u128) {
            Some(number) => Ok(number as u8),
            None => Err(ExtractError),
        }
    }
}

impl FromPath<'_> for u16 {
    fn from_path(value: &str) -> (parsed: Result<Self, ExtractError>)
        ensures
            parsed == (match unsigned_number(value.spec_bytes(), u16::MAX as int) {
                Some(number) => Ok::<u16, ExtractError>(number as u16),
                None => Err(ExtractError),
            }),
    {
        match parse_unsigned(value.as_bytes(), u16::MAX as u128) {
            Some(number) => Ok(number as u16),
            None => Err(ExtractError),
        }
    }
}

impl FromQuery<'_> for u16 {
    fn from_query(value: &str) -> (parsed: Result<Self, ExtractError>)
        ensures
            parsed == (match unsigned_number(value.spec_bytes(), u16::MAX as int) {
                Some(number) => Ok::<u16, ExtractError>(number as u16),
                None => Err(ExtractError),
            }),
    {
        match parse_unsigned(value.as_bytes(), u16::MAX as u128) {
            Some(number) => Ok(number as u16),
            None => Err(ExtractError),
        }
    }
}

impl FromHeader<'_> for u16 {
    fn from_header(value: &[u8]) -> (parsed: Result<Self, ExtractError>)
        ensures
            parsed == (match unsigned_number(value@, u16::MAX as int) {
                Some(number) => Ok::<u16, ExtractError>(number as u16),
                None => Err(ExtractError),
            }),
    {
        match parse_unsigned(value, u16::MAX as u128) {
            Some(number) => Ok(number as u16),
            None => Err(ExtractError),
        }
    }
}

impl FromPath<'_> for u32 {
    fn from_path(value: &str) -> (parsed: Result<Self, ExtractError>)
        ensures
            parsed == (match unsigned_number(value.spec_bytes(), u32::MAX as int) {
                Some(number) => Ok::<u32, ExtractError>(number as u32),
                None => Err(ExtractError),
            }),
    {
        match parse_unsigned(value.as_bytes(), u32::MAX as u128) {
            Some(number) => Ok(number as u32),
            None => Err(ExtractError),
        }
    }
}

impl FromQuery<'_> for u32 {
    fn from_query(value: &str) -> (parsed: Result<Self, ExtractError>)
        ensures
            parsed == (match unsigned_number(value.spec_bytes(), u32::MAX as int) {
                Some(number) => Ok::<u32, ExtractError>(number as u32),
                None => Err(ExtractError),
            }),
    {
        match parse_unsigned(value.as_bytes(), u32::MAX as u128) {
            Some(number) => Ok(number as u32),
            None => Err(ExtractError),
        }
    }
}

impl FromHeader<'_> for u32 {
    fn from_header(value: &[u8]) -> (parsed: Result<Self, ExtractError>)
        ensures
            parsed == (match unsigned_number(value@, u32::MAX as int) {
                Some(number) => Ok::<u32, ExtractError>(number as u32),
                None => Err(ExtractError),
            }),
    {
        match parse_unsigned(value, u32::MAX as u128) {
            Some(number) => Ok(number as u32),
            None => Err(ExtractError),
        }
    }
}

impl FromPath<'_> for u64 {
    fn from_path(value: &str) -> (parsed: Result<Self, ExtractError>)
        ensures
            parsed == (match unsigned_number(value.spec_bytes(), u64::MAX as int) {
                Some(number) => Ok::<u64, ExtractError>(number as u64),
                None => Err(ExtractError),
            }),
    {
        match parse_unsigned(value.as_bytes(), u64::MAX as u128) {
            Some(number) => Ok(number as u64),
            None => Err(ExtractError),
        }
    }
}

impl FromQuery<'_> for u64 {
    fn from_query(value: &str) -> (parsed: Result<Self, ExtractError>)
        ensures
            parsed == (match unsigned_number(value.spec_bytes(), u64::MAX as int) {
                Some(number) => Ok::<u64, ExtractError>(number as u64),
                None => Err(ExtractError),
            }),
    {
        match parse_unsigned(value.as_bytes(), u64::MAX as u128) {
            Some(number) => Ok(number as u64),
            None => Err(ExtractError),
        }
    }
}

impl FromHeader<'_> for u64 {
    fn from_header(value: &[u8]) -> (parsed: Result<Self, ExtractError>)
        ensures
            parsed == (match unsigned_number(value@, u64::MAX as int) {
                Some(number) => Ok::<u64, ExtractError>(number as u64),
                None => Err(ExtractError),
            }),
    {
        match parse_unsigned(value, u64::MAX as u128) {
            Some(number) => Ok(number as u64),
            None => Err(ExtractError),
        }
    }
}

impl FromPath<'_> for u128 {
    fn from_path(value: &str) -> (parsed: Result<Self, ExtractError>)
        ensures
            parsed == (match unsigned_number(value.spec_bytes(), u128::MAX as int) {
                Some(number) => Ok::<u128, ExtractError>(number as u128),
                None => Err(ExtractError),
            }),
    {
        match parse_unsigned(value.as_bytes(), u128::MAX as u128) {
            Some(number) => Ok(number as u128),
            None => Err(ExtractError),
        }
    }
}

impl FromQuery<'_> for u128 {
    fn from_query(value: &str) -> (parsed: Result<Self, ExtractError>)
        ensures
            parsed == (match unsigned_number(value.spec_bytes(), u128::MAX as int) {
                Some(number) => Ok::<u128, ExtractError>(number as u128),
                None => Err(ExtractError),
            }),
    {
        match parse_unsigned(value.as_bytes(), u128::MAX as u128) {
            Some(number) => Ok(number as u128),
            None => Err(ExtractError),
        }
    }
}

impl FromHeader<'_> for u128 {
    fn from_header(value: &[u8]) -> (parsed: Result<Self, ExtractError>)
        ensures
            parsed == (match unsigned_number(value@, u128::MAX as int) {
                Some(number) => Ok::<u128, ExtractError>(number as u128),
                None => Err(ExtractError),
            }),
    {
        match parse_unsigned(value, u128::MAX as u128) {
            Some(number) => Ok(number as u128),
            None => Err(ExtractError),
        }
    }
}

impl FromPath<'_> for usize {
    fn from_path(value: &str) -> (parsed: Result<Self, ExtractError>)
        ensures
            parsed == (match unsigned_number(value.spec_bytes(), usize::MAX as int) {
                Some(number) => Ok::<usize, ExtractError>(number as usize),
                None => Err(ExtractError),
            }),
    {
        match parse_unsigned(value.as_bytes(), usize::MAX as u128) {
            Some(number) => Ok(number as usize),
            None => Err(ExtractError),
        }
    }
}

impl FromQuery<'_> for usize {
    fn from_query(value: &str) -> (parsed: Result<Self, ExtractError>)
        ensures
            parsed == (match unsigned_number(value.spec_bytes(), usize::MAX as int) {
                Some(number) => Ok::<usize, ExtractError>(number as usize),
                None => Err(ExtractError),
            }),
    {
        match parse_unsigned(value.as_bytes(), usize::MAX as u128) {
            Some(number) => Ok(number as usize),
            None => Err(ExtractError),
        }
    }
}

impl FromHeader<'_> for usize {
    fn from_header(value: &[u8]) -> (parsed: Result<Self, ExtractError>)
        ensures
            parsed == (match unsigned_number(value@, usize::MAX as int) {
                Some(number) => Ok::<usize, ExtractError>(number as usize),
                None => Err(ExtractError),
            }),
    {
        match parse_unsigned(value, usize::MAX as u128) {
            Some(number) => Ok(number as usize),
            None => Err(ExtractError),
        }
    }
}

impl FromPath<'_> for i8 {
    fn from_path(value: &str) -> (parsed: Result<Self, ExtractError>)
        ensures
            parsed == (match signed_number(value.spec_bytes(), i8::MIN as int, i8::MAX as int) {
                Some(number) => Ok::<i8, ExtractError>(number as i8),
                None => Err(ExtractError),
            }),
    {
        match parse_signed(value.as_bytes(), i8::MIN as i128, i8::MAX as i128) {
            Some(number) => Ok(number as i8),
            None => Err(ExtractError),
        }
    }
}

impl FromQuery<'_> for i8 {
    fn from_query(value: &str) -> (parsed: Result<Self, ExtractError>)
        ensures
            parsed == (match signed_number(value.spec_bytes(), i8::MIN as int, i8::MAX as int) {
                Some(number) => Ok::<i8, ExtractError>(number as i8),
                None => Err(ExtractError),
            }),
    {
        match parse_signed(value.as_bytes(), i8::MIN as i128, i8::MAX as i128) {
            Some(number) => Ok(number as i8),
            None => Err(ExtractError),
        }
    }
}

impl FromHeader<'_> for i8 {
    fn from_header(value: &[u8]) -> (parsed: Result<Self, ExtractError>)
        ensures
            parsed == (match signed_number(value@, i8::MIN as int, i8::MAX as int) {
                Some(number) => Ok::<i8, ExtractError>(number as i8),
                None => Err(ExtractError),
            }),
    {
        match parse_signed(value, i8::MIN as i128, i8::MAX as i128) {
            Some(number) => Ok(number as i8),
            None => Err(ExtractError),
        }
    }
}

impl FromPath<'_> for i16 {
    fn from_path(value: &str) -> (parsed: Result<Self, ExtractError>)
        ensures
            parsed == (match signed_number(value.spec_bytes(), i16::MIN as int, i16::MAX as int) {
                Some(number) => Ok::<i16, ExtractError>(number as i16),
                None => Err(ExtractError),
            }),
    {
        match parse_signed(value.as_bytes(), i16::MIN as i128, i16::MAX as i128) {
            Some(number) => Ok(number as i16),
            None => Err(ExtractError),
        }
    }
}

impl FromQuery<'_> for i16 {
    fn from_query(value: &str) -> (parsed: Result<Self, ExtractError>)
        ensures
            parsed == (match signed_number(value.spec_bytes(), i16::MIN as int, i16::MAX as int) {
                Some(number) => Ok::<i16, ExtractError>(number as i16),
                None => Err(ExtractError),
            }),
    {
        match parse_signed(value.as_bytes(), i16::MIN as i128, i16::MAX as i128) {
            Some(number) => Ok(number as i16),
            None => Err(ExtractError),
        }
    }
}

impl FromHeader<'_> for i16 {
    fn from_header(value: &[u8]) -> (parsed: Result<Self, ExtractError>)
        ensures
            parsed == (match signed_number(value@, i16::MIN as int, i16::MAX as int) {
                Some(number) => Ok::<i16, ExtractError>(number as i16),
                None => Err(ExtractError),
            }),
    {
        match parse_signed(value, i16::MIN as i128, i16::MAX as i128) {
            Some(number) => Ok(number as i16),
            None => Err(ExtractError),
        }
    }
}

impl FromPath<'_> for i32 {
    fn from_path(value: &str) -> (parsed: Result<Self, ExtractError>)
        ensures
            parsed == (match signed_number(value.spec_bytes(), i32::MIN as int, i32::MAX as int) {
                Some(number) => Ok::<i32, ExtractError>(number as i32),
                None => Err(ExtractError),
            }),
    {
        match parse_signed(value.as_bytes(), i32::MIN as i128, i32::MAX as i128) {
            Some(number) => Ok(number as i32),
            None => Err(ExtractError),
        }
    }
}

impl FromQuery<'_> for i32 {
    fn from_query(value: &str) -> (parsed: Result<Self, ExtractError>)
        ensures
            parsed == (match signed_number(value.spec_bytes(), i32::MIN as int, i32::MAX as int) {
                Some(number) => Ok::<i32, ExtractError>(number as i32),
                None => Err(ExtractError),
            }),
    {
        match parse_signed(value.as_bytes(), i32::MIN as i128, i32::MAX as i128) {
            Some(number) => Ok(number as i32),
            None => Err(ExtractError),
        }
    }
}

impl FromHeader<'_> for i32 {
    fn from_header(value: &[u8]) -> (parsed: Result<Self, ExtractError>)
        ensures
            parsed == (match signed_number(value@, i32::MIN as int, i32::MAX as int) {
                Some(number) => Ok::<i32, ExtractError>(number as i32),
                None => Err(ExtractError),
            }),
    {
        match parse_signed(value, i32::MIN as i128, i32::MAX as i128) {
            Some(number) => Ok(number as i32),
            None => Err(ExtractError),
        }
    }
}

impl FromPath<'_> for i64 {
    fn from_path(value: &str) -> (parsed: Result<Self, ExtractError>)
        ensures
            parsed == (match signed_number(value.spec_bytes(), i64::MIN as int, i64::MAX as int) {
                Some(number) => Ok::<i64, ExtractError>(number as i64),
                None => Err(ExtractError),
            }),
    {
        match parse_signed(value.as_bytes(), i64::MIN as i128, i64::MAX as i128) {
            Some(number) => Ok(number as i64),
            None => Err(ExtractError),
        }
    }
}

impl FromQuery<'_> for i64 {
    fn from_query(value: &str) -> (parsed: Result<Self, ExtractError>)
        ensures
            parsed == (match signed_number(value.spec_bytes(), i64::MIN as int, i64::MAX as int) {
                Some(number) => Ok::<i64, ExtractError>(number as i64),
                None => Err(ExtractError),
            }),
    {
        match parse_signed(value.as_bytes(), i64::MIN as i128, i64::MAX as i128) {
            Some(number) => Ok(number as i64),
            None => Err(ExtractError),
        }
    }
}

impl FromHeader<'_> for i64 {
    fn from_header(value: &[u8]) -> (parsed: Result<Self, ExtractError>)
        ensures
            parsed == (match signed_number(value@, i64::MIN as int, i64::MAX as int) {
                Some(number) => Ok::<i64, ExtractError>(number as i64),
                None => Err(ExtractError),
            }),
    {
        match parse_signed(value, i64::MIN as i128, i64::MAX as i128) {
            Some(number) => Ok(number as i64),
            None => Err(ExtractError),
        }
    }
}

impl FromPath<'_> for i128 {
    fn from_path(value: &str) -> (parsed: Result<Self, ExtractError>)
        ensures
            parsed == (match signed_number(value.spec_bytes(), i128::MIN as int, i128::MAX as int) {
                Some(number) => Ok::<i128, ExtractError>(number as i128),
                None => Err(ExtractError),
            }),
    {
        match parse_signed(value.as_bytes(), i128::MIN as i128, i128::MAX as i128) {
            Some(number) => Ok(number as i128),
            None => Err(ExtractError),
        }
    }
}

impl FromQuery<'_> for i128 {
    fn from_query(value: &str) -> (parsed: Result<Self, ExtractError>)
        ensures
            parsed == (match signed_number(value.spec_bytes(), i128::MIN as int, i128::MAX as int) {
                Some(number) => Ok::<i128, ExtractError>(number as i128),
                None => Err(ExtractError),
            }),
    {
        match parse_signed(value.as_bytes(), i128::MIN as i128, i128::MAX as i128) {
            Some(number) => Ok(number as i128),
            None => Err(ExtractError),
        }
    }
}

impl FromHeader<'_> for i128 {
    fn from_header(value: &[u8]) -> (parsed: Result<Self, ExtractError>)
        ensures
            parsed == (match signed_number(value@, i128::MIN as int, i128::MAX as int) {
                Some(number) => Ok::<i128, ExtractError>(number as i128),
                None => Err(ExtractError),
            }),
    {
        match parse_signed(value, i128::MIN as i128, i128::MAX as i128) {
            Some(number) => Ok(number as i128),
            None => Err(ExtractError),
        }
    }
}

impl FromPath<'_> for isize {
    fn from_path(value: &str) -> (parsed: Result<Self, ExtractError>)
        ensures
            parsed == (match signed_number(value.spec_bytes(), isize::MIN as int, isize::MAX as int) {
                Some(number) => Ok::<isize, ExtractError>(number as isize),
                None => Err(ExtractError),
            }),
    {
        match parse_signed(value.as_bytes(), isize::MIN as i128, isize::MAX as i128) {
            Some(number) => Ok(number as isize),
            None => Err(ExtractError),
        }
    }
}

impl FromQuery<'_> for isize {
    fn from_query(value: &str) -> (parsed: Result<Self, ExtractError>)
        ensures
            parsed == (match signed_number(value.spec_bytes(), isize::MIN as int, isize::MAX as int) {
                Some(number) => Ok::<isize, ExtractError>(number as isize),
                None => Err(ExtractError),
            }),
    {
        match parse_signed(value.as_bytes(), isize::MIN as i128, isize::MAX as i128) {
            Some(number) => Ok(number as isize),
            None => Err(ExtractError),
        }
    }
}

impl FromHeader<'_> for isize {
    fn from_header(value: &[u8]) -> (parsed: Result<Self, ExtractError>)
        ensures
            parsed == (match signed_number(value@, isize::MIN as int, isize::MAX as int) {
                Some(number) => Ok::<isize, ExtractError>(number as isize),
                None => Err(ExtractError),
            }),
    {
        match parse_signed(value, isize::MIN as i128, isize::MAX as i128) {
            Some(number) => Ok(number as isize),
            None => Err(ExtractError),
        }
    }
}

/// The value of the first piece of a query that is named `key`; a piece without
/// `=` has an empty value.
pub open spec fn first_value(pieces: Seq<Seq<char>>, key: Seq<char>) -> Option<Seq<char>>
    decreases pieces.len(),
{
    if pieces.len() == 0 {
        None
    } else if cut(pieces[0], '=').0 == key {
        match cut(pieces[0], '=').1 {
            Some(value) => Some(value),
            None => Some(Seq::empty()),
        }
    } else {
        first_value(pieces.skip(1), key)
    }
}

/// The raw value that a query gives for `key`.
pub open spec fn raw_value(query: Option<Seq<char>>, key: Seq<char>) -> Option<Seq<char>> {
    match query {
        Some(query) => first_value(split(query, '&'), key),
        None => None,
    }
}

/// The raw value that a query gives for `key`.
pub fn query_value<'a>(query: Option<&'a str>, key: &str) -> (value: Option<&'a str>)
    ensures
        text_of(value) == raw_value(text_of(query), key@),
{
    let text = match query {
        Some(text) => text,
        None => {
            return None;
        },
    };
    let mut pieces = Pieces::new(text, 38);
    loop
        invariant
            pieces.separator() == '&',
            raw_value(text_of(query), key@) == first_value(pieces.pieces(), key@),
        decreases pieces.pieces().len(),
    {
        match pieces.next() {
            None => {
                return None;
            },
            Some(pair) => match split_once(pair, 61) {
                Some((name, value)) => if same_text(name, key) {
                    return Some(value);
                },
                None => if same_text(pair, key) {
                    proof {
                        reveal_strlit("");
                        assert(""@ =~= Seq::<char>::empty());
                    }
                    return Some("");
                },
            },
        }
    }
}

/// Decodes a path capture.
pub fn path<'a, T: FromPath<'a>>(value: &'a str) -> (decoded: Result<T, ExtractError>)
    ensures
        call_ensures(T::from_path, (value,), decoded),
{
    T::from_path(value)
}

/// Decodes a query value, which has to be there.
pub fn query_required<'a, T: FromQuery<'a>>(query: Option<&'a str>, key: &str) -> (decoded: Result<
    T,
    ExtractError,
>)
    ensures
        match raw_value(text_of(query), key@) {
            Some(raw) => exists|value: &'a str|
                value@ == raw && #[trigger] call_ensures(T::from_query, (value,), decoded),
            None => decoded == Err::<T, ExtractError>(ExtractError),
        },
{
    match query_value(query, key) {
        Some(value) => T::from_query(value),
        None => Err(ExtractError),
    }
}

/// Decodes a query value, if it is there.
pub fn query_optional<'a, T: FromQuery<'a>>(query: Option<&'a str>, key: &str) -> (decoded: Result<
    Option<T>,
    ExtractError,
>)
    ensures
        match raw_value(text_of(query), key@) {
            Some(raw) => exists|value: &'a str, result: Result<T, ExtractError>|
                value@ == raw && #[trigger] call_ensures(T::from_query, (value,), result)
                    && decoded == present(result),
            None => decoded == Ok::<Option<T>, ExtractError>(None),
        },
{
    match query_value(query, key) {
        Some(value) => {
            let result = T::from_query(value);
            assert(call_ensures(T::from_query, (value,), result));
            match result {
                Ok(decoded) => Ok(Some(decoded)),
                Err(error) => Err(error),
            }
        },
        None => Ok(None),
    }
}

/// Makes a value of the last decoded one under a key, which has to be there.
pub fn param_required<'a, T: FromQuery<'a>>(query: &'a QueryParams<'a>, key: &str) -> (decoded:
    Result<T, ExtractError>)
    ensures
        match last_value(query_pairs(query.raw()), key@) {
            Some(text) => exists|value: &'a str|
                value@ == text && #[trigger] call_ensures(T::from_query, (value,), decoded),
            None => decoded == Err::<T, ExtractError>(ExtractError),
        },
{
    match query.get(key) {
        Some(value) => T::from_query(value),
        None => Err(ExtractError),
    }
}

/// Makes a value of the last decoded one under a key, if it is there.
pub fn param_optional<'a, T: FromQuery<'a>>(query: &'a QueryParams<'a>, key: &str) -> (decoded:
    Result<Option<T>, ExtractError>)
    ensures
        match last_value(query_pairs(query.raw()), key@) {
            Some(text) => exists|value: &'a str, result: Result<T, ExtractError>|
                value@ == text && #[trigger] call_ensures(T::from_query, (value,), result)
                    && decoded == present(result),
            None => decoded == Ok::<Option<T>, ExtractError>(None),
        },
{
    match query.get(key) {
        Some(value) => {
            let result = T::from_query(value);
            assert(call_ensures(T::from_query, (value,), result));
            match result {
                Ok(decoded) => Ok(Some(decoded)),
                Err(error) => Err(error),
            }
        },
        None => Ok(None),
    }
}

/// Makes values of all decoded ones under a key, in their order. The first that
/// cannot be made decides.
pub fn query_many<'a, T: FromQuery<'a>>(query: &'a QueryParams<'a>, key: &str) -> (decoded: Result<
    Vec<T>,
    ExtractError,
>)
    ensures
        exists|values: Seq<&'a str>| #[trigger]
            texts(values) == all_values(query_pairs(query.raw()), key@) && match decoded {
                Ok(list) => list@.len() == values.len() && forall|i: int|
                    0 <= i < values.len() ==> call_ensures(
                        T::from_query,
                        (values[i],),
                        Ok::<T, ExtractError>(#[trigger] list@[i]),
                    ),
                Err(error) => exists|i: int|
                    0 <= i < values.len() && #[trigger] call_ensures(
                        T::from_query,
                        (values[i],),
                        Err::<T, ExtractError>(error),
                    ),
            },
{
    let values = query.values(key);
    let mut list: Vec<T> = Vec::new();
    let mut i: usize = 0;
    while i < values.len()
        invariant
            0 <= i <= values@.len(),
            list@.len() == i,
            texts(values@) == all_values(query_pairs(query.raw()), key@),
            forall|j: int|
                0 <= j < i ==> call_ensures(
                    T::from_query,
                    (values@[j],),
                    Ok::<T, ExtractError>(#[trigger] list@[j]),
                ),
        decreases values@.len() - i,
    {
        match T::from_query(values[i]) {
            Ok(value) => {
                list.push(value);
            },
            Err(error) => {
                assert(call_ensures(
                    T::from_query,
                    (values@[i as int],),
                    Err::<T, ExtractError>(error),
                ));
                return Err(error);
            },
        }
        i += 1;
    }
    Ok(list)
}

/// Decodes a header, which has to be there.
pub fn header_required<'a, T: FromHeader<'a>>(value: Option<&'a [u8]>) -> (decoded: Result<
    T,
    ExtractError,
>)
    ensures
        match value {
            Some(value) => call_ensures(T::from_header, (value,), decoded),
            None => decoded == Err::<T, ExtractError>(ExtractError),
        },
{
    match value {
        Some(value) => T::from_header(value),
        None => Err(ExtractError),
    }
}

/// Decodes a header, if it is there.
pub fn header_optional<'a, T: FromHeader<'a>>(value: Option<&'a [u8]>) -> (decoded: Result<
    Option<T>,
    ExtractError,
>)
    ensures
        match value {
            Some(value) => exists|result: Result<T, ExtractError>| #[trigger]
                call_ensures(T::from_header, (value,), result) && decoded == present(result),
            None => decoded == Ok::<Option<T>, ExtractError>(None),
        },
{
    match value {
        Some(value) => {
            let result = T::from_header(value);
            assert(call_ensures(T::from_header, (value,), result));
            match result {
                Ok(decoded) => Ok(Some(decoded)),
                Err(error) => Err(error),
            }
        },
        None => Ok(None),
    }
}

/// A decoded value that is there.
pub open spec fn present<T>(result: Result<T, ExtractError>) -> Result<Option<T>, ExtractError> {
    match result {
        Ok(value) => Ok(Some(value)),
        Err(error) => Err(error),
    }
}

/// A number that the type can hold is read from its own decimal digits, also
/// behind a plus sign.
pub proof fn law_numbers_are_read_from_their_digits(number: nat, max: int)
    requires
        number <= max,
    ensures
        unsigned_number(encode_utf8(decimal(number)), max) == Some(number as int),
        unsigned_number(seq![43u8] + encode_utf8(decimal(number)), max) == Some(number as int),
{
    lemma_decimal_bytes(number);
    let digits = encode_utf8(decimal(number));
    assert(is_digit(digits[0]));
    assert((seq![43u8] + digits).skip(1) =~= digits);
}

/// A negative number that the type can hold is read from its sign and digits.
pub proof fn law_negative_numbers_are_read_from_their_digits(number: nat, min: int, max: int)
    requires
        min <= -number <= max,
    ensures
        signed_number(seq![45u8] + encode_utf8(decimal(number)), min, max) == Some(-number),
{
    lemma_decimal_bytes(number);
    let digits = encode_utf8(decimal(number));
    assert((seq![45u8] + digits).skip(1) =~= digits);
}

} // verus!

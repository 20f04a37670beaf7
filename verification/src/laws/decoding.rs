//! Laws of decoded values: every value is read back from its own text, wherever
//! that stands.
use vstd::prelude::*;
use vstd::string::StringSliceAdditionalSpecFns;
#[allow(unused_imports)]
use vstd::utf8::*;

#[allow(unused_imports)]
use crate::extract::{
    header_optional, header_required, law_negative_numbers_are_read_from_their_digits,
    law_numbers_are_read_from_their_digits, query_optional, query_required, raw_value,
    signed_number, truth, unsigned_number,
};
use crate::extract::{ExtractError, FromHeader, FromPath, FromQuery};
#[allow(unused_imports)]
use crate::laws::queries::{digits_only, law_numbers_are_digits_behind_a_sign};
#[allow(unused_imports)]
use crate::response::text_of;
#[allow(unused_imports)]
use crate::server::digits_value;
#[allow(unused_imports)]
use crate::text::{decimal, utf8_text};

verus! {

/// How a number is written: in its digits, behind a minus sign where it is
/// negative.
pub open spec fn number_text(number: int) -> Seq<char> {
    if number < 0 {
        seq!['-'] + decimal((-number) as nat)
    } else {
        decimal(number as nat)
    }
}

proof fn lemma_unsigned(number: nat, max: int)
    requires
        number <= max,
    ensures
        unsigned_number(encode_utf8(number_text(number as int)), max) == Some(number as int),
{
    law_numbers_are_read_from_their_digits(number, max);
}

proof fn lemma_signed(number: int, min: int, max: int)
    requires
        min <= number <= max,
    ensures
        signed_number(encode_utf8(number_text(number)), min, max) == Some(number),
{
    if number < 0 {
        let magnitude = (-number) as nat;
        law_negative_numbers_are_read_from_their_digits(magnitude, min, max);
        let digits = decimal(magnitude);
        let text = seq!['-'] + digits;
        assert(text.drop_first() =~= digits);
        crate::text::lemma_scalar_bytes('-', '-');
        assert(encode_utf8(text) =~= seq![45u8] + encode_utf8(digits));
    } else {
        let magnitude = number as nat;
        crate::server::lemma_decimal_bytes(magnitude);
        let digits = encode_utf8(decimal(magnitude));
        assert(digits_only(digits)) by {
            assert forall|i: int| 0 <= i < digits.len() implies crate::laws::texts::among(
                #[trigger] digits[i],
                "0123456789"@,
            ) by {
                assert(crate::server::is_digit(digits[i]));
                reveal_strlit("0123456789");
                assert("0123456789"@[digits[i] - 48] == digits[i] as char);
            }
        }
        law_numbers_are_digits_behind_a_sign(digits, min, max);
    }
}

/// Every `u8` is read back from its own text, from a path, a query and a header
/// alike, and no larger number is read as one.
pub proof fn law_every_u8_is_read_back(
    value: u8,
    text: &str,
    bytes: &[u8],
    far: &[u8],
    from_path: Result<u8, ExtractError>,
    from_query: Result<u8, ExtractError>,
    from_header: Result<u8, ExtractError>,
    from_far: Result<u8, ExtractError>,
)
    requires
        text@ == number_text(value as int),
        bytes@ == text.spec_bytes(),
        digits_only(far@),
        digits_value(far@) > u8::MAX,
        call_ensures(<u8 as FromPath<'_>>::from_path, (text,), from_path),
        call_ensures(<u8 as FromQuery<'_>>::from_query, (text,), from_query),
        call_ensures(<u8 as FromHeader<'_>>::from_header, (bytes,), from_header),
        call_ensures(<u8 as FromHeader<'_>>::from_header, (far,), from_far),
    ensures
        from_path == Ok::<u8, ExtractError>(value),
        from_query == Ok::<u8, ExtractError>(value),
        from_header == Ok::<u8, ExtractError>(value),
        from_far is Err,
{
    lemma_unsigned(value as nat, u8::MAX as int);
    law_numbers_are_digits_behind_a_sign(far@, u8::MIN as int, u8::MAX as int);
}

/// Every `u16` is read back from its own text, from a path, a query and a header
/// alike, and no larger number is read as one.
pub proof fn law_every_u16_is_read_back(
    value: u16,
    text: &str,
    bytes: &[u8],
    far: &[u8],
    from_path: Result<u16, ExtractError>,
    from_query: Result<u16, ExtractError>,
    from_header: Result<u16, ExtractError>,
    from_far: Result<u16, ExtractError>,
)
    requires
        text@ == number_text(value as int),
        bytes@ == text.spec_bytes(),
        digits_only(far@),
        digits_value(far@) > u16::MAX,
        call_ensures(<u16 as FromPath<'_>>::from_path, (text,), from_path),
        call_ensures(<u16 as FromQuery<'_>>::from_query, (text,), from_query),
        call_ensures(<u16 as FromHeader<'_>>::from_header, (bytes,), from_header),
        call_ensures(<u16 as FromHeader<'_>>::from_header, (far,), from_far),
    ensures
        from_path == Ok::<u16, ExtractError>(value),
        from_query == Ok::<u16, ExtractError>(value),
        from_header == Ok::<u16, ExtractError>(value),
        from_far is Err,
{
    lemma_unsigned(value as nat, u16::MAX as int);
    law_numbers_are_digits_behind_a_sign(far@, u8::MIN as int, u16::MAX as int);
}

/// Every `u32` is read back from its own text, from a path, a query and a header
/// alike, and no larger number is read as one.
pub proof fn law_every_u32_is_read_back(
    value: u32,
    text: &str,
    bytes: &[u8],
    far: &[u8],
    from_path: Result<u32, ExtractError>,
    from_query: Result<u32, ExtractError>,
    from_header: Result<u32, ExtractError>,
    from_far: Result<u32, ExtractError>,
)
    requires
        text@ == number_text(value as int),
        bytes@ == text.spec_bytes(),
        digits_only(far@),
        digits_value(far@) > u32::MAX,
        call_ensures(<u32 as FromPath<'_>>::from_path, (text,), from_path),
        call_ensures(<u32 as FromQuery<'_>>::from_query, (text,), from_query),
        call_ensures(<u32 as FromHeader<'_>>::from_header, (bytes,), from_header),
        call_ensures(<u32 as FromHeader<'_>>::from_header, (far,), from_far),
    ensures
        from_path == Ok::<u32, ExtractError>(value),
        from_query == Ok::<u32, ExtractError>(value),
        from_header == Ok::<u32, ExtractError>(value),
        from_far is Err,
{
    lemma_unsigned(value as nat, u32::MAX as int);
    law_numbers_are_digits_behind_a_sign(far@, u8::MIN as int, u32::MAX as int);
}

/// Every `u64` is read back from its own text, from a path, a query and a header
/// alike, and no larger number is read as one.
pub proof fn law_every_u64_is_read_back(
    value: u64,
    text: &str,
    bytes: &[u8],
    far: &[u8],
    from_path: Result<u64, ExtractError>,
    from_query: Result<u64, ExtractError>,
    from_header: Result<u64, ExtractError>,
    from_far: Result<u64, ExtractError>,
)
    requires
        text@ == number_text(value as int),
        bytes@ == text.spec_bytes(),
        digits_only(far@),
        digits_value(far@) > u64::MAX,
        call_ensures(<u64 as FromPath<'_>>::from_path, (text,), from_path),
        call_ensures(<u64 as FromQuery<'_>>::from_query, (text,), from_query),
        call_ensures(<u64 as FromHeader<'_>>::from_header, (bytes,), from_header),
        call_ensures(<u64 as FromHeader<'_>>::from_header, (far,), from_far),
    ensures
        from_path == Ok::<u64, ExtractError>(value),
        from_query == Ok::<u64, ExtractError>(value),
        from_header == Ok::<u64, ExtractError>(value),
        from_far is Err,
{
    lemma_unsigned(value as nat, u64::MAX as int);
    law_numbers_are_digits_behind_a_sign(far@, u8::MIN as int, u64::MAX as int);
}

/// Every `u128` is read back from its own text, from a path, a query and a header
/// alike, and no larger number is read as one.
pub proof fn law_every_u128_is_read_back(
    value: u128,
    text: &str,
    bytes: &[u8],
    far: &[u8],
    from_path: Result<u128, ExtractError>,
    from_query: Result<u128, ExtractError>,
    from_header: Result<u128, ExtractError>,
    from_far: Result<u128, ExtractError>,
)
    requires
        text@ == number_text(value as int),
        bytes@ == text.spec_bytes(),
        digits_only(far@),
        digits_value(far@) > u128::MAX,
        call_ensures(<u128 as FromPath<'_>>::from_path, (text,), from_path),
        call_ensures(<u128 as FromQuery<'_>>::from_query, (text,), from_query),
        call_ensures(<u128 as FromHeader<'_>>::from_header, (bytes,), from_header),
        call_ensures(<u128 as FromHeader<'_>>::from_header, (far,), from_far),
    ensures
        from_path == Ok::<u128, ExtractError>(value),
        from_query == Ok::<u128, ExtractError>(value),
        from_header == Ok::<u128, ExtractError>(value),
        from_far is Err,
{
    lemma_unsigned(value as nat, u128::MAX as int);
    law_numbers_are_digits_behind_a_sign(far@, u8::MIN as int, u128::MAX as int);
}

/// Every `usize` is read back from its own text, from a path, a query and a header
/// alike, and no larger number is read as one.
pub proof fn law_every_usize_is_read_back(
    value: usize,
    text: &str,
    bytes: &[u8],
    far: &[u8],
    from_path: Result<usize, ExtractError>,
    from_query: Result<usize, ExtractError>,
    from_header: Result<usize, ExtractError>,
    from_far: Result<usize, ExtractError>,
)
    requires
        text@ == number_text(value as int),
        bytes@ == text.spec_bytes(),
        digits_only(far@),
        digits_value(far@) > usize::MAX,
        call_ensures(<usize as FromPath<'_>>::from_path, (text,), from_path),
        call_ensures(<usize as FromQuery<'_>>::from_query, (text,), from_query),
        call_ensures(<usize as FromHeader<'_>>::from_header, (bytes,), from_header),
        call_ensures(<usize as FromHeader<'_>>::from_header, (far,), from_far),
    ensures
        from_path == Ok::<usize, ExtractError>(value),
        from_query == Ok::<usize, ExtractError>(value),
        from_header == Ok::<usize, ExtractError>(value),
        from_far is Err,
{
    lemma_unsigned(value as nat, usize::MAX as int);
    law_numbers_are_digits_behind_a_sign(far@, u8::MIN as int, usize::MAX as int);
}

/// Every `i8` is read back from its own text, from a path, a query and a header
/// alike, and no larger number is read as one.
pub proof fn law_every_i8_is_read_back(
    value: i8,
    text: &str,
    bytes: &[u8],
    far: &[u8],
    from_path: Result<i8, ExtractError>,
    from_query: Result<i8, ExtractError>,
    from_header: Result<i8, ExtractError>,
    from_far: Result<i8, ExtractError>,
)
    requires
        text@ == number_text(value as int),
        bytes@ == text.spec_bytes(),
        digits_only(far@),
        digits_value(far@) > i8::MAX,
        call_ensures(<i8 as FromPath<'_>>::from_path, (text,), from_path),
        call_ensures(<i8 as FromQuery<'_>>::from_query, (text,), from_query),
        call_ensures(<i8 as FromHeader<'_>>::from_header, (bytes,), from_header),
        call_ensures(<i8 as FromHeader<'_>>::from_header, (far,), from_far),
    ensures
        from_path == Ok::<i8, ExtractError>(value),
        from_query == Ok::<i8, ExtractError>(value),
        from_header == Ok::<i8, ExtractError>(value),
        from_far is Err,
{
    lemma_signed(value as int, i8::MIN as int, i8::MAX as int);
    law_numbers_are_digits_behind_a_sign(far@, i8::MIN as int, i8::MAX as int);
}

/// Every `i16` is read back from its own text, from a path, a query and a header
/// alike, and no larger number is read as one.
pub proof fn law_every_i16_is_read_back(
    value: i16,
    text: &str,
    bytes: &[u8],
    far: &[u8],
    from_path: Result<i16, ExtractError>,
    from_query: Result<i16, ExtractError>,
    from_header: Result<i16, ExtractError>,
    from_far: Result<i16, ExtractError>,
)
    requires
        text@ == number_text(value as int),
        bytes@ == text.spec_bytes(),
        digits_only(far@),
        digits_value(far@) > i16::MAX,
        call_ensures(<i16 as FromPath<'_>>::from_path, (text,), from_path),
        call_ensures(<i16 as FromQuery<'_>>::from_query, (text,), from_query),
        call_ensures(<i16 as FromHeader<'_>>::from_header, (bytes,), from_header),
        call_ensures(<i16 as FromHeader<'_>>::from_header, (far,), from_far),
    ensures
        from_path == Ok::<i16, ExtractError>(value),
        from_query == Ok::<i16, ExtractError>(value),
        from_header == Ok::<i16, ExtractError>(value),
        from_far is Err,
{
    lemma_signed(value as int, i16::MIN as int, i16::MAX as int);
    law_numbers_are_digits_behind_a_sign(far@, i16::MIN as int, i16::MAX as int);
}

/// Every `i32` is read back from its own text, from a path, a query and a header
/// alike, and no larger number is read as one.
pub proof fn law_every_i32_is_read_back(
    value: i32,
    text: &str,
    bytes: &[u8],
    far: &[u8],
    from_path: Result<i32, ExtractError>,
    from_query: Result<i32, ExtractError>,
    from_header: Result<i32, ExtractError>,
    from_far: Result<i32, ExtractError>,
)
    requires
        text@ == number_text(value as int),
        bytes@ == text.spec_bytes(),
        digits_only(far@),
        digits_value(far@) > i32::MAX,
        call_ensures(<i32 as FromPath<'_>>::from_path, (text,), from_path),
        call_ensures(<i32 as FromQuery<'_>>::from_query, (text,), from_query),
        call_ensures(<i32 as FromHeader<'_>>::from_header, (bytes,), from_header),
        call_ensures(<i32 as FromHeader<'_>>::from_header, (far,), from_far),
    ensures
        from_path == Ok::<i32, ExtractError>(value),
        from_query == Ok::<i32, ExtractError>(value),
        from_header == Ok::<i32, ExtractError>(value),
        from_far is Err,
{
    lemma_signed(value as int, i32::MIN as int, i32::MAX as int);
    law_numbers_are_digits_behind_a_sign(far@, i32::MIN as int, i32::MAX as int);
}

/// Every `i64` is read back from its own text, from a path, a query and a header
/// alike, and no larger number is read as one.
pub proof fn law_every_i64_is_read_back(
    value: i64,
    text: &str,
    bytes: &[u8],
    far: &[u8],
    from_path: Result<i64, ExtractError>,
    from_query: Result<i64, ExtractError>,
    from_header: Result<i64, ExtractError>,
    from_far: Result<i64, ExtractError>,
)
    requires
        text@ == number_text(value as int),
        bytes@ == text.spec_bytes(),
        digits_only(far@),
        digits_value(far@) > i64::MAX,
        call_ensures(<i64 as FromPath<'_>>::from_path, (text,), from_path),
        call_ensures(<i64 as FromQuery<'_>>::from_query, (text,), from_query),
        call_ensures(<i64 as FromHeader<'_>>::from_header, (bytes,), from_header),
        call_ensures(<i64 as FromHeader<'_>>::from_header, (far,), from_far),
    ensures
        from_path == Ok::<i64, ExtractError>(value),
        from_query == Ok::<i64, ExtractError>(value),
        from_header == Ok::<i64, ExtractError>(value),
        from_far is Err,
{
    lemma_signed(value as int, i64::MIN as int, i64::MAX as int);
    law_numbers_are_digits_behind_a_sign(far@, i64::MIN as int, i64::MAX as int);
}

/// Every `i128` is read back from its own text, from a path, a query and a header
/// alike, and no larger number is read as one.
pub proof fn law_every_i128_is_read_back(
    value: i128,
    text: &str,
    bytes: &[u8],
    far: &[u8],
    from_path: Result<i128, ExtractError>,
    from_query: Result<i128, ExtractError>,
    from_header: Result<i128, ExtractError>,
    from_far: Result<i128, ExtractError>,
)
    requires
        text@ == number_text(value as int),
        bytes@ == text.spec_bytes(),
        digits_only(far@),
        digits_value(far@) > i128::MAX,
        call_ensures(<i128 as FromPath<'_>>::from_path, (text,), from_path),
        call_ensures(<i128 as FromQuery<'_>>::from_query, (text,), from_query),
        call_ensures(<i128 as FromHeader<'_>>::from_header, (bytes,), from_header),
        call_ensures(<i128 as FromHeader<'_>>::from_header, (far,), from_far),
    ensures
        from_path == Ok::<i128, ExtractError>(value),
        from_query == Ok::<i128, ExtractError>(value),
        from_header == Ok::<i128, ExtractError>(value),
        from_far is Err,
{
    lemma_signed(value as int, i128::MIN as int, i128::MAX as int);
    law_numbers_are_digits_behind_a_sign(far@, i128::MIN as int, i128::MAX as int);
}

/// Every `isize` is read back from its own text, from a path, a query and a header
/// alike, and no larger number is read as one.
pub proof fn law_every_isize_is_read_back(
    value: isize,
    text: &str,
    bytes: &[u8],
    far: &[u8],
    from_path: Result<isize, ExtractError>,
    from_query: Result<isize, ExtractError>,
    from_header: Result<isize, ExtractError>,
    from_far: Result<isize, ExtractError>,
)
    requires
        text@ == number_text(value as int),
        bytes@ == text.spec_bytes(),
        digits_only(far@),
        digits_value(far@) > isize::MAX,
        call_ensures(<isize as FromPath<'_>>::from_path, (text,), from_path),
        call_ensures(<isize as FromQuery<'_>>::from_query, (text,), from_query),
        call_ensures(<isize as FromHeader<'_>>::from_header, (bytes,), from_header),
        call_ensures(<isize as FromHeader<'_>>::from_header, (far,), from_far),
    ensures
        from_path == Ok::<isize, ExtractError>(value),
        from_query == Ok::<isize, ExtractError>(value),
        from_header == Ok::<isize, ExtractError>(value),
        from_far is Err,
{
    lemma_signed(value as int, isize::MIN as int, isize::MAX as int);
    law_numbers_are_digits_behind_a_sign(far@, isize::MIN as int, isize::MAX as int);
}

/// Truth values are read back from their names, from a path, a query and a
/// header alike, and nothing else is read as one.
pub proof fn law_truth_values_are_read_back(
    text: &str,
    bytes: &[u8],
    from_path: Result<bool, ExtractError>,
    from_query: Result<bool, ExtractError>,
    from_header: Result<bool, ExtractError>,
)
    requires
        bytes@ == text.spec_bytes(),
        call_ensures(<bool as FromPath<'_>>::from_path, (text,), from_path),
        call_ensures(<bool as FromQuery<'_>>::from_query, (text,), from_query),
        call_ensures(<bool as FromHeader<'_>>::from_header, (bytes,), from_header),
    ensures
        from_path == from_query,
        from_header == from_query,
        from_query == Ok::<bool, ExtractError>(true) <==> text@ == "true"@,
        from_query == Ok::<bool, ExtractError>(false) <==> text@ == "false"@,
{
    crate::laws::queries::law_truth_values_are_named(text.spec_bytes());
    if text.spec_bytes() == "true".spec_bytes() {
        crate::text::lemma_text_of_bytes(text@, "true"@);
    }
    if text.spec_bytes() == "false".spec_bytes() {
        crate::text::lemma_text_of_bytes(text@, "false"@);
    }
}

/// Texts are given as they are, from a path and a query always, and from a
/// header where its bytes are a text.
pub proof fn law_texts_are_read_as_they_are(
    text: &str,
    bytes: &[u8],
    from_path: Result<String, ExtractError>,
    from_query: Result<String, ExtractError>,
    from_header: Result<String, ExtractError>,
)
    requires
        call_ensures(<String as FromPath<'_>>::from_path, (text,), from_path),
        call_ensures(<String as FromQuery<'_>>::from_query, (text,), from_query),
        call_ensures(<String as FromHeader<'_>>::from_header, (bytes,), from_header),
    ensures
        from_path matches Ok(given) && given@ == text@,
        from_query matches Ok(given) && given@ == text@,
        from_header is Ok <==> valid_utf8(bytes@),
        from_header matches Ok(given) ==> encode_utf8(given@) == bytes@,
{
    if valid_utf8(bytes@) {
        decode_utf8_encode_utf8(bytes@);
    }
}

/// Texts are borrowed as they are, from a path and a query always, and from a
/// header where its bytes are a text.
pub proof fn law_texts_are_borrowed_as_they_are<'a>(
    text: &'a str,
    bytes: &'a [u8],
    from_path: Result<&'a str, ExtractError>,
    from_query: Result<&'a str, ExtractError>,
    from_header: Result<&'a str, ExtractError>,
)
    requires
        call_ensures(<&'a str as FromPath<'a>>::from_path, (text,), from_path),
        call_ensures(<&'a str as FromQuery<'a>>::from_query, (text,), from_query),
        call_ensures(<&'a str as FromHeader<'a>>::from_header, (bytes,), from_header),
    ensures
        from_path == Ok::<&'a str, ExtractError>(text),
        from_query == Ok::<&'a str, ExtractError>(text),
        from_header is Ok <==> valid_utf8(bytes@),
        from_header matches Ok(given) ==> encode_utf8(given@) == bytes@,
{
    if valid_utf8(bytes@) {
        decode_utf8_encode_utf8(bytes@);
    }
}

/// A value that has to be there is refused where it is missing; one that need
/// not be is left out.
pub proof fn law_missing_values_are_refused_or_left_out<'a, T: FromQuery<'a>>(
    query: Option<&'a str>,
    key: &str,
    required: Result<T, ExtractError>,
    optional: Result<Option<T>, ExtractError>,
)
    requires
        raw_value(text_of(query), key@) is None,
        call_ensures(query_required::<T>, (query, key), required),
        call_ensures(query_optional::<T>, (query, key), optional),
    ensures
        required is Err,
        optional matches Ok(value) && value is None,
{
}

/// The same holds of headers.
pub proof fn law_missing_headers_are_refused_or_left_out<'a, T: FromHeader<'a>>(
    required: Result<T, ExtractError>,
    optional: Result<Option<T>, ExtractError>,
)
    requires
        call_ensures(header_required::<T>, (None::<&'a [u8]>,), required),
        call_ensures(header_optional::<T>, (None::<&'a [u8]>,), optional),
    ensures
        required is Err,
        optional matches Ok(value) && value is None,
{
}

} // verus!

//! Laws of paths and queries: escapes, pairs and lookups.
use vstd::prelude::*;
use vstd::utf8::*;

#[allow(unused_imports)]
use crate::extract::{
    first_value, magnitude, present, raw_value, signed_number, truth, unsigned_number,
};
use crate::extract::ExtractError;
#[allow(unused_imports)]
use crate::laws::texts::{
    among, law_digits_are_read_in_tens, law_separators_part_texts,
    law_texts_are_cut_at_the_first_separator,
};
#[allow(unused_imports)]
use crate::params::{
    all_values, borrows_unescaped, component_text, decoded_from, form_encoded, form_escaped, form_pairs, form_piece, form_safe,
    form_text, hex_digit, last_value, percent_decoded, percent_escaped, plus_as_space,
    query_pairs, query_parts, raw_pair, raw_pairs, unescaped,
};
use crate::params::QueryPair;
#[allow(unused_imports)]
use crate::server::{all_digits, digits_value, is_digit};
#[allow(unused_imports)]
use crate::text::{cut, join, law_valid_text_is_kept, lossy, split};
use vstd::string::StringSliceAdditionalSpecFns;

verus! {

/// A `%` and two hexadecimal digits, in any case, stand for the byte that the
/// digits write.
pub proof fn law_escapes_stand_for_their_byte(high: int, low: int, rest: Seq<u8>)
    requires
        0 <= high < 16,
        0 <= low < 16,
    ensures
        percent_decoded(
            seq!['%' as u8, "0123456789ABCDEF"@[high] as u8, "0123456789ABCDEF"@[low] as u8] + rest,
        ) == seq![(high * 16 + low) as u8] + percent_decoded(rest),
        percent_decoded(
            seq!['%' as u8, "0123456789abcdef"@[high] as u8, "0123456789abcdef"@[low] as u8] + rest,
        ) == seq![(high * 16 + low) as u8] + percent_decoded(rest),
{
    reveal_strlit("0123456789ABCDEF");
    reveal_strlit("0123456789abcdef");
    let upper = seq!['%' as u8, "0123456789ABCDEF"@[high] as u8, "0123456789ABCDEF"@[low] as u8]
        + rest;
    let lower = seq!['%' as u8, "0123456789abcdef"@[high] as u8, "0123456789abcdef"@[low] as u8]
        + rest;
    assert(upper.skip(3) =~= rest);
    assert(lower.skip(3) =~= rest);
    assert(hex_digit(upper[1]) == Some(high) && hex_digit(upper[2]) == Some(low));
    assert(hex_digit(lower[1]) == Some(high) && hex_digit(lower[2]) == Some(low));
}

/// Any other byte stands for itself, a `%` among them that no two hexadecimal
/// digits follow.
pub proof fn law_other_bytes_stand_for_themselves(byte: u8, rest: Seq<u8>)
    requires
        byte != '%' as u8 || rest.len() < 2 || !among(rest[0], "0123456789abcdefABCDEF"@)
            || !among(rest[1], "0123456789abcdefABCDEF"@),
    ensures
        percent_decoded(seq![byte] + rest) == seq![byte] + percent_decoded(rest),
        percent_decoded(Seq::<u8>::empty()) == Seq::<u8>::empty(),
{
    reveal_strlit("0123456789abcdefABCDEF");
    let digits = "0123456789abcdefABCDEF"@;
    let whole = seq![byte] + rest;
    assert(whole.skip(1) =~= rest);
    assert forall|b: u8| hex_digit(b) is Some implies #[trigger] among(b, digits) by {
        if 48 <= b <= 57 {
            assert(digits[b - 48] == b as char);
        } else if 97 <= b <= 102 {
            assert(digits[b - 87] == b as char);
        } else {
            assert(digits[b - 49] == b as char);
        }
    }
    if whole.len() >= 3 {
        assert(whole[1] == rest[0] && whole[2] == rest[1]);
    }
}

/// A path component without a `%` stands for itself, and one whose bytes are
/// all escaped for the text that they encode.
pub proof fn law_components_stand_for_their_text(text: Seq<char>, escaped: Seq<char>)
    requires
        encode_utf8(escaped) == percent_escaped(encode_utf8(text)),
    ensures
        !text.contains('%') ==> component_text(text) == text,
        component_text(escaped) == text,
{
    crate::params::law_escapes_are_read_once(encode_utf8(text));
    encode_utf8_valid_utf8(text);
    encode_utf8_decode_utf8(text);
    law_valid_text_is_kept(encode_utf8(text));
    if text.len() > 0 {
        encode_utf8_first_scalar(text);
        crate::text::lemma_ascii_in_encoding(escaped, '%');
        assert(percent_escaped(encode_utf8(text))[0] == 37);
    } else {
        assert(percent_escaped(encode_utf8(text)) =~= Seq::<u8>::empty());
        if escaped.len() > 0 {
            encode_utf8_first_scalar(escaped);
        }
        assert(escaped =~= text);
    }
}

/// In a form a plus is a space; nothing else changes before escapes are read.
pub proof fn law_a_plus_is_a_space(left: Seq<u8>, byte: u8, right: Seq<u8>)
    ensures
        plus_as_space(left + seq!['+' as u8] + right) == plus_as_space(left) + seq![' ' as u8]
            + plus_as_space(right),
        byte != '+' as u8 ==> plus_as_space(seq![byte]) == seq![byte],
        plus_as_space(left).len() == left.len(),
{
    assert(plus_as_space(left + seq!['+' as u8] + right) =~= plus_as_space(left) + seq![' ' as u8]
        + plus_as_space(right));
    if byte != '+' as u8 {
        assert(plus_as_space(seq![byte]) =~= seq![byte]);
    }
}

/// A text that holds neither `+` nor `%` stands for itself in a form.
pub proof fn law_plain_form_texts_stand_for_themselves(text: Seq<char>)
    requires
        !text.contains('+'),
        !text.contains('%'),
    ensures
        form_text(encode_utf8(text)) == text,
        unescaped(encode_utf8(text)),
{
    let bytes = encode_utf8(text);
    crate::text::lemma_ascii_in_encoding(text, '+');
    crate::text::lemma_ascii_in_encoding(text, '%');
    assert(plus_as_space(bytes) =~= bytes) by {
        assert forall|i: int| 0 <= i < bytes.len() implies bytes[i] != 43 by {
            assert(bytes.contains(bytes[i]));
        }
    }
    lemma_no_escapes(bytes);
    encode_utf8_valid_utf8(text);
    encode_utf8_decode_utf8(text);
    law_valid_text_is_kept(bytes);
}

proof fn lemma_no_escapes(bytes: Seq<u8>)
    requires
        !bytes.contains(37),
    ensures
        percent_decoded(bytes) == bytes,
    decreases bytes.len(),
{
    if bytes.len() > 0 {
        assert(bytes.contains(bytes[0]));
        let rest = bytes.skip(1);
        assert(!rest.contains(37)) by {
            if rest.contains(37) {
                let i = choose|i: int| 0 <= i < rest.len() && rest[i] == 37;
                assert(bytes[i + 1] == 37);
            }
        }
        lemma_no_escapes(rest);
        assert(percent_decoded(bytes) =~= bytes);
    } else {
        assert(percent_decoded(bytes) =~= bytes);
    }
}

proof fn lemma_raw_pairs_join(left: Seq<Seq<u8>>, right: Seq<Seq<u8>>)
    ensures
        raw_pairs(left + right) == raw_pairs(left) + raw_pairs(right),
    decreases left.len(),
{
    if left.len() == 0 {
        assert(left + right =~= right);
        assert(raw_pairs(left) + raw_pairs(right) =~= raw_pairs(right));
    } else {
        lemma_raw_pairs_join(left.skip(1), right);
        assert((left + right).skip(1) =~= left.skip(1) + right);
        assert(raw_pairs(left + right) =~= raw_pairs(left) + raw_pairs(right));
    }
}

proof fn lemma_encode_join(left: Seq<char>, right: Seq<char>)
    ensures
        encode_utf8(left + right) == encode_utf8(left) + encode_utf8(right),
    decreases left.len(),
{
    if left.len() == 0 {
        assert(left + right =~= right);
        assert(encode_utf8(left) + encode_utf8(right) =~= encode_utf8(right));
    } else {
        lemma_encode_join(left.drop_first(), right);
        assert((left + right).drop_first() =~= left.drop_first() + right);
        assert(encode_utf8(left + right) =~= encode_utf8(left) + encode_utf8(right));
    }
}

/// A query gives the pairs before an `&`, then those behind it. A name and a
/// value stand around the first `=`; without one the value is empty, and
/// nothing at all is no pair.
pub proof fn law_queries_are_read_pair_by_pair(
    left: Seq<char>,
    right: Seq<char>,
    name: Seq<char>,
    value: Seq<char>,
)
    requires
        !name.contains('='),
        !name.contains('&'),
        !value.contains('&'),
    ensures
        query_pairs(left + seq!['&'] + right) == query_pairs(left) + query_pairs(right),
        query_pairs(name + seq!['='] + value) == seq![
            (form_text(encode_utf8(name)), form_text(encode_utf8(value))),
        ],
        name.len() > 0 ==> query_pairs(name) == seq![
            (form_text(encode_utf8(name)), form_text(Seq::empty())),
        ],
        query_pairs(Seq::empty()) == Seq::<(Seq<char>, Seq<char>)>::empty(),
{
    let (a, b) = (encode_utf8(left), encode_utf8(right));
    crate::api_metrics::logging::lemma_encode_one('&');
    crate::api_metrics::logging::lemma_encode_one('=');
    crate::text::lemma_scalar_bytes('&', '&');
    crate::text::lemma_scalar_bytes('=', '=');
    lemma_encode_join(left + seq!['&'], right);
    lemma_encode_join(left, seq!['&']);
    assert(encode_utf8(left + seq!['&'] + right) == a + seq![38u8] + b);
    law_separators_part_texts(a, b, 38u8);
    lemma_raw_pairs_join(split(a, 38), split(b, 38));
    assert(query_pairs(left + seq!['&'] + right) =~= query_pairs(left) + query_pairs(right));
    let (n, v) = (encode_utf8(name), encode_utf8(value));
    lemma_encode_join(name + seq!['='], value);
    lemma_encode_join(name, seq!['=']);
    let piece = n + seq![61u8] + v;
    crate::text::lemma_ascii_in_encoding(name, '=');
    crate::text::lemma_ascii_in_encoding(name, '&');
    crate::text::lemma_ascii_in_encoding(value, '&');
    assert(!piece.contains(38)) by {
        if piece.contains(38) {
            let i = choose|i: int| 0 <= i < piece.len() && piece[i] == 38;
            if i < n.len() {
                assert(n[i] == 38);
            } else {
                assert(v[i - n.len() - 1] == 38);
            }
        }
    }
    law_separators_part_texts(piece, Seq::empty(), 38u8);
    law_separators_part_texts(n, Seq::empty(), 38u8);
    law_separators_part_texts(Seq::<u8>::empty(), Seq::empty(), 38u8);
    law_texts_are_cut_at_the_first_separator(n, v, 61u8);
    reveal_with_fuel(raw_pairs, 2);
    assert(split(piece, 38) =~= seq![piece]);
    assert(query_pairs(name + seq!['='] + value) =~= seq![(form_text(n), form_text(v))]);
    if name.len() > 0 {
        encode_utf8_first_scalar(name);
        assert(query_pairs(name) =~= seq![(form_text(n), form_text(Seq::empty()))]);
    }
    assert(encode_utf8(Seq::<char>::empty()) =~= Seq::<u8>::empty());
    assert(query_pairs(Seq::empty()) =~= Seq::<(Seq<char>, Seq<char>)>::empty());
}

/// All values of a key are those of the pairs before, then those of the pairs
/// behind; a pair gives its value to its own key alone.
pub proof fn law_values_are_collected_in_order(
    left: Seq<(Seq<char>, Seq<char>)>,
    right: Seq<(Seq<char>, Seq<char>)>,
    name: Seq<char>,
    value: Seq<char>,
    key: Seq<char>,
)
    ensures
        all_values(left + right, key) == all_values(left, key) + all_values(right, key),
        all_values(seq![(name, value)], key) == (if name == key {
            seq![value]
        } else {
            Seq::empty()
        }),
        last_value(left.push((name, value)), key) == (if name == key {
            Some(value)
        } else {
            last_value(left, key)
        }),
        last_value(Seq::empty(), key) is None,
    decreases right.len(),
{
    if right.len() == 0 {
        assert(left + right =~= left);
        assert(all_values(left, key) + all_values(right, key) =~= all_values(left, key));
    } else {
        law_values_are_collected_in_order(left, right.drop_last(), name, value, key);
        assert((left + right).drop_last() =~= left + right.drop_last());
        assert(all_values(left + right, key) =~= all_values(left, key) + all_values(right, key));
    }
    let one = seq![(name, value)];
    assert(one.drop_last() =~= Seq::<(Seq<char>, Seq<char>)>::empty());
    reveal_with_fuel(all_values, 2);
    assert(all_values(one, key) =~= (if name == key {
        seq![value]
    } else {
        Seq::empty()
    }));
    assert(left.push((name, value)).drop_last() =~= left);
}

/// A raw lookup gives the first value of a key, as it was sent.
pub proof fn law_raw_lookups_give_the_first_value(
    name: Seq<char>,
    value: Seq<char>,
    rest: Seq<char>,
    key: Seq<char>,
)
    requires
        !name.contains('='),
        !name.contains('&'),
        !value.contains('&'),
    ensures
        raw_value(Some(name + seq!['='] + value + seq!['&'] + rest), key) == (if name == key {
            Some(value)
        } else {
            raw_value(Some(rest), key)
        }),
        raw_value(Some(name + seq!['&'] + rest), key) == (if name == key {
            Some(Seq::<char>::empty())
        } else {
            raw_value(Some(rest), key)
        }),
        raw_value(Some(name + seq!['='] + value), key) == (if name == key {
            Some(value)
        } else {
            None
        }),
        raw_value(Some(name), key) == (if name == key {
            Some(Seq::<char>::empty())
        } else {
            None
        }),
        raw_value(None, key) is None,
{
    let piece = name + seq!['='] + value;
    assert(!piece.contains('&')) by {
        if piece.contains('&') {
            let i = choose|i: int| 0 <= i < piece.len() && piece[i] == '&';
            if i < name.len() {
                assert(name[i] == '&');
            } else {
                assert(value[i - name.len() - 1] == '&');
            }
        }
    }
    law_separators_part_texts(piece, rest, '&');
    law_separators_part_texts(name, rest, '&');
    law_texts_are_cut_at_the_first_separator(name, value, '=');
    reveal_with_fuel(first_value, 2);
    assert((seq![piece] + split(rest, '&')).skip(1) =~= split(rest, '&'));
    assert((seq![name] + split(rest, '&')).skip(1) =~= split(rest, '&'));
}

/// Whether all bytes are decimal digits, at least one of them.
pub open spec fn digits_only(digits: Seq<u8>) -> bool {
    digits.len() > 0 && forall|i: int|
        0 <= i < digits.len() ==> among(#[trigger] digits[i], "0123456789"@)
}

proof fn lemma_magnitude(digits: Seq<u8>)
    ensures
        digits_only(digits) ==> magnitude(digits) == Some(digits_value(digits)),
        !digits_only(digits) ==> magnitude(digits) is None,
{
    reveal_strlit("0123456789");
    let ten = "0123456789"@;
    assert forall|b: u8| #[trigger] is_digit(b) == among(b, ten) by {
        if is_digit(b) {
            assert(ten[b - 48] == b as char);
        }
    }
    if all_digits(digits) {
        assert forall|i: int| 0 <= i < digits.len() implies among(#[trigger] digits[i], ten) by {
            assert(is_digit(digits[i]));
        }
    }
    if digits_only(digits) {
        assert forall|i: int| 0 <= i < digits.len() implies is_digit(#[trigger] digits[i]) by {
            assert(among(digits[i], ten));
        }
    }
}

/// A number is read from decimal digits that the type can hold, also behind a
/// plus sign, and behind a minus sign where the type has negative numbers.
/// Anything else is no number.
pub proof fn law_numbers_are_digits_behind_a_sign(digits: Seq<u8>, min: int, max: int)
    ensures
        digits_only(digits) ==> {
            let value = digits_value(digits) as int;
            &&& unsigned_number(digits, max) == (if value <= max {
                Some(value)
            } else {
                None
            })
            &&& unsigned_number(seq!['+' as u8] + digits, max) == unsigned_number(digits, max)
            &&& unsigned_number(seq!['-' as u8] + digits, max) is None
            &&& signed_number(digits, min, max) == (if min <= value <= max {
                Some(value)
            } else {
                None
            })
            &&& signed_number(seq!['+' as u8] + digits, min, max) == signed_number(digits, min, max)
            &&& signed_number(seq!['-' as u8] + digits, min, max) == (if min <= -value <= max {
                Some(-value)
            } else {
                None
            })
        },
        !digits_only(digits) && (digits.len() == 0 || digits[0] != '+' as u8 && digits[0]
            != '-' as u8) ==> {
            &&& unsigned_number(digits, max) is None
            &&& unsigned_number(seq!['+' as u8] + digits, max) is None
            &&& signed_number(digits, min, max) is None
            &&& signed_number(seq!['+' as u8] + digits, min, max) is None
            &&& signed_number(seq!['-' as u8] + digits, min, max) is None
        },
{
    reveal_strlit("0123456789");
    lemma_magnitude(digits);
    let plus = seq!['+' as u8] + digits;
    let minus = seq!['-' as u8] + digits;
    assert(plus.skip(1) =~= digits);
    assert(minus.skip(1) =~= digits);
    lemma_magnitude(minus);
    assert(!among(minus[0], "0123456789"@)) by {
        assert(minus[0] == 45);
    }
    assert(!digits_only(minus));
    if digits_only(digits) {
        assert(among(digits[0], "0123456789"@));
    }
}

/// Only `true` and `false` name a truth value.
pub proof fn law_truth_values_are_named(text: Seq<u8>)
    ensures
        truth(text) == Some(true) <==> text == "true".spec_bytes(),
        truth(text) == Some(false) <==> text == "false".spec_bytes(),
{
    reveal_strlit("true");
    reveal_strlit("false");
    is_ascii_chars_encode_utf8("true"@);
    is_ascii_chars_encode_utf8("false"@);
}

/// What is there is given, and a fault in it stays one.
pub proof fn law_present_values_are_given<T>(value: T)
    ensures
        present(Ok::<T, ExtractError>(value)) == Ok::<Option<T>, ExtractError>(Some(value)),
        present(Err::<T, ExtractError>(ExtractError)) is Err,
{
}

/// A form writes letters, digits and four signs as they are, a space as a plus
/// and any other byte as `%` and two hexadecimal digits.
pub proof fn law_forms_escape_all_but_plain_bytes(left: Seq<u8>, byte: u8)
    ensures
        form_escaped(seq![byte] + left) == (if among(
            byte,
            "ABCDEFGHIJKLMNOPQRSTUVWXYZabcdefghijklmnopqrstuvwxyz0123456789*-._"@,
        ) {
            seq![byte]
        } else if byte == ' ' as u8 {
            seq!['+' as u8]
        } else {
            seq![
                '%' as u8,
                "0123456789ABCDEF"@[byte as int / 16] as u8,
                "0123456789ABCDEF"@[byte as int % 16] as u8,
            ]
        }) + form_escaped(left),
        form_escaped(Seq::<u8>::empty()) == Seq::<u8>::empty(),
{
    reveal_strlit("0123456789ABCDEF");
    reveal_strlit("ABCDEFGHIJKLMNOPQRSTUVWXYZabcdefghijklmnopqrstuvwxyz0123456789*-._");
    let plain = "ABCDEFGHIJKLMNOPQRSTUVWXYZabcdefghijklmnopqrstuvwxyz0123456789*-._"@;
    let whole = seq![byte] + left;
    assert(whole.skip(1) =~= left);
    assert(form_safe(byte) == among(byte, plain)) by {
        if form_safe(byte) {
            let k: int = if 65 <= byte <= 90 {
                byte - 65
            } else if 97 <= byte <= 122 {
                byte - 71
            } else if 48 <= byte <= 57 {
                byte + 4
            } else if byte == 42 {
                62
            } else if byte == 45 {
                63
            } else if byte == 46 {
                64
            } else {
                65
            };
            assert(plain[k] == byte as char);
        }
    }
}

/// A pair of a query is borrowed from it where nothing has to be decoded, its
/// name and its value each by itself.
pub proof fn law_plain_parts_are_borrowed(
    pairs: Seq<QueryPair<'_>>,
    parts: Seq<(Seq<u8>, Seq<u8>)>,
    index: int,
)
    requires
        decoded_from(pairs, parts),
        0 <= index < parts.len(),
    ensures
        pairs.len() == parts.len(),
        !parts[index].0.contains('+' as u8) && !parts[index].0.contains('%' as u8)
            ==> pairs[index].0 is Borrowed,
        !parts[index].1.contains('+' as u8) && !parts[index].1.contains('%' as u8)
            ==> pairs[index].1 is Borrowed,
{
    assert(crate::params::pair_texts(pairs).len() == form_pairs(parts).len());
    assert(borrows_unescaped(pairs[index], parts[index]));
}

} // verus!

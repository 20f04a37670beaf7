//! Laws of texts: letters, digits, pieces and white space.
use vstd::prelude::*;
use vstd::string::StringSliceAdditionalSpecFns;
use vstd::utf8::*;

#[allow(unused_imports)]
use crate::headers::lowered;
#[allow(unused_imports)]
use crate::server::{blank, digits_value, trimmed, without_leading_blanks, without_trailing_blanks};
#[allow(unused_imports)]
use crate::text::{
    cut, decimal, first_of, glued, join, lemma_first_of, lemma_first_of_unique, lemma_glued_push,
    lossy, lower, same_ignoring_case, split, starts_with, trim_end, trim_start, utf8_text,
    white_space,
};

verus! {

/// Whether a character is one of the letters, digits or signs of `characters`.
pub open spec fn among(byte: u8, characters: Seq<char>) -> bool {
    characters.contains(byte as char)
}

/// The capital letters have the small ones as their lower case, in the order
/// of the alphabet, and no other byte has another one.
pub proof fn law_letters_have_a_lower_case(index: int, byte: u8)
    requires
        0 <= index < 26,
        !among(byte, "ABCDEFGHIJKLMNOPQRSTUVWXYZ"@),
    ensures
        lower("ABCDEFGHIJKLMNOPQRSTUVWXYZ"@[index] as u8)
            == "abcdefghijklmnopqrstuvwxyz"@[index] as u8,
        lower(byte) == byte,
{
    reveal_strlit("ABCDEFGHIJKLMNOPQRSTUVWXYZ");
    reveal_strlit("abcdefghijklmnopqrstuvwxyz");
    let capitals = "ABCDEFGHIJKLMNOPQRSTUVWXYZ"@;
    if 65 <= byte <= 90 {
        assert(capitals[byte - 65] == byte as char);
    }
}

/// Whether two bytes are the same letter, or the same byte.
pub open spec fn same_letter(left: u8, right: u8) -> bool {
    ||| left == right
    ||| exists|k: int|
        0 <= k < 26 && {
            let capital = #[trigger] "ABCDEFGHIJKLMNOPQRSTUVWXYZ"@[k] as u8;
            let small = "abcdefghijklmnopqrstuvwxyz"@[k] as u8;
            (left == capital && right == small) || (left == small && right == capital)
        }
}

/// Names are compared without regard to the case of letters, and to nothing
/// else: byte by byte, each is the same letter as the other.
pub proof fn law_names_are_compared_letter_by_letter(left: Seq<u8>, right: Seq<u8>)
    ensures
        same_ignoring_case(left, right) <==> left.len() == right.len() && forall|i: int|
            0 <= i < left.len() ==> same_letter(#[trigger] left[i], right[i]),
{
    reveal_strlit("ABCDEFGHIJKLMNOPQRSTUVWXYZ");
    reveal_strlit("abcdefghijklmnopqrstuvwxyz");
    let capitals = "ABCDEFGHIJKLMNOPQRSTUVWXYZ"@;
    let smalls = "abcdefghijklmnopqrstuvwxyz"@;
    assert forall|k: int| 0 <= k < 26 implies #[trigger] capitals[k] as u8 == 65 + k && smalls[k] as u8
        == 97 + k by {}
    assert forall|a: u8, b: u8| #[trigger] same_letter(a, b) == (lower(a) == lower(b)) by {
        if lower(a) == lower(b) && a != b {
            if a < b {
                assert(capitals[a - 65] as u8 == a);
            } else {
                assert(capitals[b - 65] as u8 == b);
            }
        }
    }
    if same_ignoring_case(left, right) {
        assert forall|i: int| 0 <= i < left.len() implies same_letter(
            #[trigger] left[i],
            right[i],
        ) by {
            assert(lower(left[i]) == lower(right[i]));
        }
    }
    if left.len() == right.len() && forall|i: int|
        0 <= i < left.len() ==> same_letter(#[trigger] left[i], right[i]) {
        assert forall|i: int| 0 <= i < left.len() implies lower(#[trigger] left[i]) == lower(
            right[i],
        ) by {
            assert(same_letter(left[i], right[i]));
        }
    }
}

/// Lower case is the same name without a capital letter.
pub proof fn law_lower_case_is_the_same_name(name: Seq<u8>, index: int)
    requires
        0 <= index < name.len(),
    ensures
        same_ignoring_case(lowered(name), name),
        !among(lowered(name)[index], "ABCDEFGHIJKLMNOPQRSTUVWXYZ"@),
{
    reveal_strlit("ABCDEFGHIJKLMNOPQRSTUVWXYZ");
    assert forall|i: int| 0 <= i < name.len() implies lower(#[trigger] lowered(name)[i]) == lower(
        name[i],
    ) by {}
    assert(!(65 <= lowered(name)[index] <= 90));
}

/// A separator parts a text into the pieces before it and those behind it, and
/// a text without one is its only piece.
pub proof fn law_separators_part_texts<T>(left: Seq<T>, right: Seq<T>, separator: T)
    ensures
        split(left + seq![separator] + right, separator) == split(left, separator) + split(
            right,
            separator,
        ),
        !left.contains(separator) ==> split(left, separator) == seq![left],
    decreases left.len(),
{
    lemma_first_of(left, separator);
    let whole = left + seq![separator] + right;
    let at = first_of(left, separator);
    assert forall|i: int| 0 <= i < at implies whole[i] != separator by {
        assert(whole[i] == left[i]);
    }
    lemma_first_of_unique(whole, separator, at);
    if at < left.len() {
        let rest = left.skip(at + 1);
        law_separators_part_texts(rest, right, separator);
        assert(whole.take(at) =~= left.take(at));
        assert(whole.skip(at + 1) =~= rest + seq![separator] + right);
        assert(split(whole, separator) =~= split(left, separator) + split(right, separator));
    } else {
        assert(whole.take(at) =~= left);
        assert(whole.skip(at + 1) =~= right);
        assert(split(whole, separator) =~= split(left, separator) + split(right, separator));
    }
}

/// A text is cut at the first separator, which is lost, and only there.
pub proof fn law_texts_are_cut_at_the_first_separator<T>(
    before: Seq<T>,
    after: Seq<T>,
    separator: T,
)
    requires
        !before.contains(separator),
    ensures
        cut(before + seq![separator] + after, separator) == (before, Some(after)),
        cut(before, separator) == (before, None::<Seq<T>>),
{
    let whole = before + seq![separator] + after;
    assert forall|i: int| 0 <= i < before.len() implies whole[i] != separator by {
        assert(before.contains(before[i]));
    }
    lemma_first_of_unique(whole, separator, before.len() as int);
    lemma_first_of(before, separator);
    assert(whole.take(before.len() as int) =~= before);
    assert(whole.skip(before.len() as int + 1) =~= after);
}

/// Pieces are joined with one separator between each two of them.
pub proof fn law_pieces_are_joined_by_separators<T>(
    left: Seq<Seq<T>>,
    right: Seq<Seq<T>>,
    separator: T,
)
    requires
        left.len() > 0,
        right.len() > 0,
    ensures
        join(left + right, separator) == join(left, separator) + seq![separator] + join(
            right,
            separator,
        ),
        join(left.take(1), separator) == left[0],
    decreases left.len(),
{
    let all = left + right;
    if left.len() == 1 {
        assert(all.skip(1) =~= right);
        assert(join(all, separator) =~= join(left, separator) + seq![separator] + join(
            right,
            separator,
        ));
    } else {
        law_pieces_are_joined_by_separators(left.skip(1), right, separator);
        assert(all.skip(1) =~= left.skip(1) + right);
        assert(join(all, separator) =~= join(left, separator) + seq![separator] + join(
            right,
            separator,
        ));
    }
}

/// A text starts with what was put in front of it, and an empty one with nothing.
pub proof fn law_texts_start_with_their_front<T>(first: T, rest: Seq<T>, x: T)
    ensures
        starts_with(seq![first] + rest, x) <==> first == x,
        !starts_with(Seq::<T>::empty(), x),
{
}

/// Texts are glued with the glue between each two of them, and nowhere else.
pub proof fn law_glue_stands_between_texts(
    left: Seq<Seq<char>>,
    right: Seq<Seq<char>>,
    glue: Seq<char>,
)
    requires
        left.len() > 0,
        right.len() > 0,
    ensures
        glued(left + right, glue) == glued(left, glue) + glue + glued(right, glue),
        glued(left.take(1), glue) == left[0],
        glued(Seq::<Seq<char>>::empty(), glue) == Seq::<char>::empty(),
    decreases right.len(),
{
    let front = right.drop_last();
    assert(left + right =~= (left + front).push(right.last()));
    assert(right =~= front.push(right.last()));
    lemma_glued_push(left + front, right.last(), glue);
    lemma_glued_push(front, right.last(), glue);
    if front.len() > 0 {
        law_glue_stands_between_texts(left, front, glue);
        assert(glued(left + right, glue) =~= glued(left, glue) + glue + glued(right, glue));
    } else {
        assert(left + front =~= left);
    }
}

/// Numbers are written in ten digits, the last of which stands for what is
/// left of whole tens.
pub proof fn law_numbers_are_written_in_ten_digits(front: nat, digit: int)
    requires
        0 <= digit < 10,
    ensures
        decimal(digit as nat) == seq!["0123456789"@[digit]],
        front > 0 ==> decimal((front * 10 + digit) as nat) == decimal(front).push(
            "0123456789"@[digit],
        ),
{
    reveal_strlit("0123456789");
    if front > 0 {
        let value = (front * 10 + digit) as nat;
        assert(value / 10 == front && value % 10 == digit);
    }
}

/// Digits are read as they are written: each one is worth ten times less than
/// the one before it.
pub proof fn law_digits_are_read_in_tens(front: Seq<u8>, digit: int)
    requires
        0 <= digit < 10,
    ensures
        digits_value(front.push("0123456789"@[digit] as u8)) == digits_value(front) * 10 + digit,
        digits_value(Seq::<u8>::empty()) == 0,
{
    reveal_strlit("0123456789");
    let all = front.push("0123456789"@[digit] as u8);
    assert(all.drop_last() =~= front);
    assert(all.last() == 48 + digit);
}

/// Whether all bytes are spaces or tabs.
pub open spec fn only_blanks(bytes: Seq<u8>) -> bool {
    forall|i: int| 0 <= i < bytes.len() ==> among(#[trigger] bytes[i], " \t"@)
}

proof fn lemma_leading(before: Seq<u8>, rest: Seq<u8>)
    requires
        only_blanks(before),
        rest.len() > 0 ==> !among(rest[0], " \t"@),
    ensures
        without_leading_blanks(before + rest) == rest,
    decreases before.len(),
{
    reveal_strlit(" \t");
    let two = " \t"@;
    assert(two[0] == ' ' && two[1] == '\t');
    if before.len() > 0 {
        let whole = before + rest;
        assert(among(before[0], two));
        assert(whole[0] == before[0]);
        assert(whole.skip(1) =~= before.skip(1) + rest);
        assert forall|i: int| 0 <= i < before.skip(1).len() implies among(
            #[trigger] before.skip(1)[i],
            two,
        ) by {
            assert(among(before[i + 1], two));
        }
        lemma_leading(before.skip(1), rest);
    } else {
        assert(before + rest =~= rest);
        if rest.len() > 0 {
            assert(!(rest[0] as char == two[0] || rest[0] as char == two[1]));
        }
    }
}

proof fn lemma_trailing(rest: Seq<u8>, after: Seq<u8>)
    requires
        only_blanks(after),
        rest.len() > 0 ==> !among(rest.last(), " \t"@),
    ensures
        without_trailing_blanks(rest + after) == rest,
    decreases after.len(),
{
    reveal_strlit(" \t");
    let two = " \t"@;
    assert(two[0] == ' ' && two[1] == '\t');
    if after.len() > 0 {
        let whole = rest + after;
        assert(among(after[after.len() - 1], two));
        assert(whole.last() == after.last());
        assert(whole.drop_last() =~= rest + after.drop_last());
        assert forall|i: int| 0 <= i < after.drop_last().len() implies among(
            #[trigger] after.drop_last()[i],
            two,
        ) by {
            assert(among(after[i], two));
        }
        lemma_trailing(rest, after.drop_last());
    } else {
        assert(rest + after =~= rest);
        if rest.len() > 0 {
            assert(!(rest.last() as char == two[0] || rest.last() as char == two[1]));
        }
    }
}

/// Spaces and tabs around a value do not belong to it; those within it do.
pub proof fn law_blanks_around_values_are_dropped(before: Seq<u8>, value: Seq<u8>, after: Seq<u8>)
    requires
        only_blanks(before),
        only_blanks(after),
        value.len() > 0 ==> !among(value[0], " \t"@) && !among(value.last(), " \t"@),
    ensures
        trimmed(before + value + after) == value,
{
    let rest = value + after;
    assert(before + value + after =~= before + rest);
    if value.len() > 0 {
        lemma_leading(before, rest);
        lemma_trailing(value, after);
    } else {
        let all = before + after;
        assert(before + value + after =~= all + Seq::<u8>::empty());
        assert(only_blanks(all)) by {
            assert forall|i: int| 0 <= i < all.len() implies among(#[trigger] all[i], " \t"@) by {
                if i < before.len() {
                    assert(among(before[i], " \t"@));
                } else {
                    assert(among(after[i - before.len()], " \t"@));
                }
            }
        }
        lemma_leading(all, Seq::empty());
        assert(value =~= Seq::<u8>::empty());
    }
}

/// Whether all characters have the Unicode property `White_Space`.
pub open spec fn only_white_space(text: Seq<char>) -> bool {
    forall|i: int|
        0 <= i < text.len() ==> (
        "\t\n\u{b}\u{c}\r \u{85}\u{a0}\u{1680}\u{2000}\u{2001}\u{2002}\u{2003}\u{2004}\u{2005}\u{2006}\u{2007}\u{2008}\u{2009}\u{200a}\u{2028}\u{2029}\u{202f}\u{205f}\u{3000}"@).contains(
        #[trigger] text[i])
}

/// White space around a text does not belong to it.
pub proof fn law_white_space_around_texts_is_dropped(
    before: Seq<char>,
    text: Seq<char>,
    after: Seq<char>,
)
    requires
        only_white_space(before),
        only_white_space(after),
        text.len() > 0 ==> !only_white_space(text.take(1)) && !only_white_space(
            text.skip(text.len() - 1),
        ),
    ensures
        trim_end(trim_start(before + text + after)) == text,
{
    if text.len() > 0 {
        assert(!white_space(text[0])) by {
            lemma_white_space(text[0]);
            if white_space(text[0]) {
                assert(only_white_space(text.take(1)));
            }
        }
        assert(!white_space(text.last())) by {
            lemma_white_space(text.last());
            if white_space(text.last()) {
                assert(only_white_space(text.skip(text.len() - 1)));
            }
        }
        assert(before + text + after =~= before + (text + after));
        lemma_trim_start(before, text + after);
        lemma_trim_end(text, after);
    } else {
        let all = before + after;
        assert(before + text + after =~= all + Seq::<char>::empty());
        assert forall|i: int| 0 <= i < all.len() implies white_space(#[trigger] all[i]) by {
            lemma_white_space(all[i]);
            if i < before.len() {
                assert(all[i] == before[i]);
            } else {
                assert(all[i] == after[i - before.len()]);
            }
        }
        lemma_trim_start_all(all);
        assert(all + Seq::<char>::empty() =~= all);
        assert(text =~= Seq::<char>::empty());
    }
}

proof fn lemma_white_space(c: char)
    ensures
        white_space(c)
            <==> "\t\n\u{b}\u{c}\r \u{85}\u{a0}\u{1680}\u{2000}\u{2001}\u{2002}\u{2003}\u{2004}\u{2005}\u{2006}\u{2007}\u{2008}\u{2009}\u{200a}\u{2028}\u{2029}\u{202f}\u{205f}\u{3000}"@.contains(
        c),
{
    reveal_strlit(
        "\t\n\u{b}\u{c}\r \u{85}\u{a0}\u{1680}\u{2000}\u{2001}\u{2002}\u{2003}\u{2004}\u{2005}\u{2006}\u{2007}\u{2008}\u{2009}\u{200a}\u{2028}\u{2029}\u{202f}\u{205f}\u{3000}",
    );
    let all =
        "\t\n\u{b}\u{c}\r \u{85}\u{a0}\u{1680}\u{2000}\u{2001}\u{2002}\u{2003}\u{2004}\u{2005}\u{2006}\u{2007}\u{2008}\u{2009}\u{200a}\u{2028}\u{2029}\u{202f}\u{205f}\u{3000}"@;
    let v = c as u32;
    if white_space(c) {
        let k: int = if 0x9 <= v <= 0xd {
            v - 0x9
        } else if v == 0x20 {
            5
        } else if v == 0x85 {
            6
        } else if v == 0xa0 {
            7
        } else if v == 0x1680 {
            8
        } else if 0x2000 <= v <= 0x200a {
            v - 0x2000 + 9
        } else if v == 0x2028 {
            20
        } else if v == 0x2029 {
            21
        } else if v == 0x202f {
            22
        } else if v == 0x205f {
            23
        } else {
            24
        };
        assert(all[k] == c);
    }
}

proof fn lemma_trim_start(before: Seq<char>, rest: Seq<char>)
    requires
        only_white_space(before),
        rest.len() > 0,
        !white_space(rest[0]),
    ensures
        trim_start(before + rest) == rest,
    decreases before.len(),
{
    if before.len() > 0 {
        lemma_white_space(before[0]);
        assert((before + rest).skip(1) =~= before.skip(1) + rest);
        assert(only_white_space(before.skip(1))) by {
            assert forall|i: int| 0 <= i < before.skip(1).len() implies white_space(
                #[trigger] before.skip(1)[i],
            ) by {
                lemma_white_space(before[i + 1]);
            }
            assert forall|i: int| 0 <= i < before.skip(1).len() implies (
            "\t\n\u{b}\u{c}\r \u{85}\u{a0}\u{1680}\u{2000}\u{2001}\u{2002}\u{2003}\u{2004}\u{2005}\u{2006}\u{2007}\u{2008}\u{2009}\u{200a}\u{2028}\u{2029}\u{202f}\u{205f}\u{3000}"@).contains(
            #[trigger] before.skip(1)[i]) by {
                assert(before.skip(1)[i] == before[i + 1]);
            }
        }
        lemma_trim_start(before.skip(1), rest);
    } else {
        assert(before + rest =~= rest);
    }
}

proof fn lemma_trim_end(rest: Seq<char>, after: Seq<char>)
    requires
        only_white_space(after),
        rest.len() > 0,
        !white_space(rest.last()),
    ensures
        trim_end(rest + after) == rest,
    decreases after.len(),
{
    if after.len() > 0 {
        lemma_white_space(after.last());
        assert(after[after.len() - 1] == after.last());
        assert((rest + after).drop_last() =~= rest + after.drop_last());
        assert forall|i: int| 0 <= i < after.drop_last().len() implies (
        "\t\n\u{b}\u{c}\r \u{85}\u{a0}\u{1680}\u{2000}\u{2001}\u{2002}\u{2003}\u{2004}\u{2005}\u{2006}\u{2007}\u{2008}\u{2009}\u{200a}\u{2028}\u{2029}\u{202f}\u{205f}\u{3000}"@).contains(
        #[trigger] after.drop_last()[i]) by {
            assert(after.drop_last()[i] == after[i]);
        }
        lemma_trim_end(rest, after.drop_last());
    } else {
        assert(rest + after =~= rest);
    }
}

proof fn lemma_trim_start_all(text: Seq<char>)
    requires
        forall|i: int| 0 <= i < text.len() ==> white_space(#[trigger] text[i]),
    ensures
        trim_start(text).len() == 0,
    decreases text.len(),
{
    if text.len() > 0 {
        assert(white_space(text[0]));
        lemma_trim_start_all(text.skip(1));
    }
}

/// Bytes are the text whose encoding they are, and no text otherwise.
pub proof fn law_bytes_are_the_text_that_they_encode(bytes: Seq<u8>, text: Seq<char>)
    ensures
        utf8_text(bytes) == Some(text) <==> bytes == encode_utf8(text),
{
    encode_utf8_valid_utf8(text);
    encode_utf8_decode_utf8(text);
    if valid_utf8(bytes) {
        decode_utf8_encode_utf8(bytes);
    }
}

/// Text is read as it is, whatever stands behind it, and what is no text is
/// read as a replacement character at a time.
pub proof fn law_broken_text_is_replaced_in_place(text: Seq<char>, rest: Seq<u8>)
    ensures
        lossy(encode_utf8(text) + rest) == text + lossy(rest),
        rest.len() > 0 && !valid_first_scalar(rest) ==> exists|count: int|
            1 <= count <= 3 && count <= rest.len() && lossy(rest) == seq!['\u{fffd}'] + lossy(
                #[trigger] rest.skip(count),
            ),
        lossy(Seq::<u8>::empty()) == Seq::<char>::empty(),
    decreases text.len(),
{
    if text.len() > 0 {
        let bytes = encode_utf8(text);
        let whole = bytes + rest;
        let tail = encode_utf8(text.drop_first());
        encode_utf8_first_scalar(text);
        law_broken_text_is_replaced_in_place(text.drop_first(), rest);
        assert(bytes == encode_scalar(text[0] as u32) + tail);
        assert(pop_first_scalar(bytes) =~= tail);
        assert(valid_first_scalar(whole));
        assert(decode_first_scalar(whole) == decode_first_scalar(bytes));
        assert(pop_first_scalar(whole) =~= tail + rest);
        char_u32_cast(text[0], decode_first_scalar(bytes));
        assert(seq![text[0]] + (text.drop_first() + lossy(rest)) =~= text + lossy(rest));
    } else {
        assert(encode_utf8(text) + rest =~= rest);
        assert(text + lossy(rest) =~= lossy(rest));
    }
    if rest.len() > 0 && !valid_first_scalar(rest) {
        let count = crate::text::broken_length(rest);
        assert(lossy(rest) == seq!['\u{fffd}'] + lossy(rest.skip(count)));
    }
}

/// Whether a character's encoding begins with these bytes.
pub open spec fn begins_character(c: char, bytes: Seq<u8>) -> bool {
    bytes.is_prefix_of(encode_utf8(seq![c]))
}

/// One replacement character stands for as many bytes as could still have
/// become a character, and for one where none could.
pub proof fn law_replacements_stand_for_what_was_begun(rest: Seq<u8>)
    requires
        rest.len() > 0,
        !valid_first_scalar(rest),
    ensures
        exists|count: int|
            {
                &&& 1 <= count <= 3
                &&& count <= rest.len()
                &&& lossy(rest) == seq!['\u{fffd}'] + lossy(#[trigger] rest.skip(count))
                &&& count > 1 ==> exists|c: char| #[trigger] begins_character(c, rest.take(count))
                &&& forall|c: char, more: int|
                    count < more <= 3 && more <= rest.len() ==> !#[trigger] begins_character(
                        c,
                        rest.take(more),
                    )
            },
{
    let count = crate::text::broken_length(rest);
    assert(lossy(rest) == seq!['\u{fffd}'] + lossy(rest.skip(count)));
    if count > 1 {
        let start = rest.take(count);
        let c = choose|c: char|
            start.len() <= (#[trigger] encode_utf8(seq![c])).len() && encode_utf8(seq![c]).take(
                start.len() as int,
            ) == start;
        assert(begins_character(c, start)) by {
            let all = encode_utf8(seq![c]);
            assert(all.take(start.len() as int) == start);
            assert(start =~= all.subrange(0, start.len() as int));
        }
    }
    assert forall|c: char, more: int| count < more <= 3 && more <= rest.len() implies !(
    #[trigger] begins_character(c, rest.take(more))) by {
        let start = rest.take(more);
        if begins_character(c, start) {
            let all = encode_utf8(seq![c]);
            assert(all.take(start.len() as int) =~= start);
            assert(crate::text::begins_scalar(start));
        }
    }
}

} // verus!

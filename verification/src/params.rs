//! Decoding of path components and query strings.
use std::borrow::Cow;
use std::sync::OnceLock;

use vstd::prelude::*;
use vstd::string::StringSliceAdditionalSpecFns;
use vstd::utf8::*;

use crate::text::{contains_ascii, same_text};
#[allow(unused_imports)]
use crate::text::{
    cut, first_of, join, law_valid_text_is_kept, lemma_first_of, lemma_first_of_unique,
    lemma_pieces_of_text, lemma_split_join, lemma_text_around_ascii, lossy, split,
};

verus! {

/// The value of a hexadecimal digit.
pub open spec fn hex_digit(byte: u8) -> Option<int> {
    if 48 <= byte <= 57 {
        Some(byte - 48)
    } else if 65 <= byte <= 70 {
        Some(byte - 55)
    } else if 97 <= byte <= 102 {
        Some(byte - 87)
    } else {
        None
    }
}

/// `bytes` with each `%` that two hexadecimal digits follow replaced by the
/// byte those digits write. What a replacement gives is not decoded again.
pub open spec fn percent_decoded(bytes: Seq<u8>) -> Seq<u8>
    decreases bytes.len(),
{
    if bytes.len() == 0 {
        Seq::empty()
    } else if bytes[0] == 37 && bytes.len() >= 3 && hex_digit(bytes[1]) is Some && hex_digit(
        bytes[2],
    ) is Some {
        seq![(hex_digit(bytes[1])->0 * 16 + hex_digit(bytes[2])->0) as u8] + percent_decoded(
            bytes.skip(3),
        )
    } else {
        seq![bytes[0]] + percent_decoded(bytes.skip(1))
    }
}

/// The byte that writes a hexadecimal digit.
pub open spec fn hex_character(value: int) -> u8 {
    if value < 10 {
        (48 + value) as u8
    } else {
        (55 + value) as u8
    }
}

/// `bytes` with every byte written as `%` and two hexadecimal digits.
pub open spec fn percent_escaped(bytes: Seq<u8>) -> Seq<u8>
    decreases bytes.len(),
{
    if bytes.len() == 0 {
        Seq::empty()
    } else {
        seq![37u8, hex_character(bytes[0] as int / 16), hex_character(bytes[0] as int % 16)]
            + percent_escaped(bytes.skip(1))
    }
}

/// Escapes are read exactly once: whatever bytes were escaped, `%` and the
/// digits behind it among them, decoding gives them back.
pub proof fn law_escapes_are_read_once(bytes: Seq<u8>)
    ensures
        percent_decoded(percent_escaped(bytes)) == bytes,
    decreases bytes.len(),
{
    if bytes.len() > 0 {
        let rest = percent_escaped(bytes.skip(1));
        let escaped = percent_escaped(bytes);
        let (high, low) = (bytes[0] as int / 16, bytes[0] as int % 16);
        law_escapes_are_read_once(bytes.skip(1));
        assert(escaped.skip(3) =~= rest);
        assert(hex_digit(hex_character(high)) == Some(high));
        assert(hex_digit(hex_character(low)) == Some(low));
        assert(percent_decoded(escaped) =~= seq![bytes[0]] + percent_decoded(rest));
        assert(seq![bytes[0]] + bytes.skip(1) =~= bytes);
    }
}

/// The text that a raw path component stands for.
pub open spec fn component_text(raw: Seq<char>) -> Seq<char> {
    if raw.contains('%') {
        lossy(percent_decoded(encode_utf8(raw)))
    } else {
        raw
    }
}

/// `percent_encoding::percent_decode_str(raw).decode_utf8_lossy()`: the bytes of
/// `raw` with every `%XX` replaced once, read as UTF-8, where each sequence that
/// is none becomes one U+FFFD.
#[verifier::external_body]
fn percent_decode_lossy(raw: &str) -> (text: Cow<'_, str>)
    ensures
        text@ == lossy(percent_decoded(raw.spec_bytes())),
{
    percent_encoding::percent_decode_str(raw).decode_utf8_lossy()
}

/// Decodes one raw path component, borrowing it where it holds no `%`.
pub fn decode_component(raw: &str) -> (text: Cow<'_, str>)
    ensures
        text@ == component_text(raw@),
        !raw@.contains('%') ==> text == Cow::Borrowed(raw),
{
    if contains_ascii(raw, 37) {
        percent_decode_lossy(raw)
    } else {
        Cow::Borrowed(raw)
    }
}

/// The text of a borrowed or owned string.
pub fn cow_text<'b>(text: &'b Cow<'_, str>) -> (borrowed: &'b str)
    ensures
        borrowed@ == text@,
{
    match text {
        Cow::Borrowed(text) => text,
        Cow::Owned(text) => text.as_str(),
    }
}

/// `bytes` with each `+` replaced by a space.
pub open spec fn plus_as_space(bytes: Seq<u8>) -> Seq<u8> {
    bytes.map_values(|byte: u8| if byte == 43 { 32u8 } else { byte })
}

/// The text that a raw form name or value stands for.
pub open spec fn form_text(raw: Seq<u8>) -> Seq<char> {
    lossy(percent_decoded(plus_as_space(raw)))
}

/// The raw name and value of one `name=value` piece. A piece without `=` is a
/// name with an empty value.
pub open spec fn raw_pair(piece: Seq<u8>) -> (Seq<u8>, Seq<u8>) {
    let (name, value) = cut(piece, 61);
    (
        name,
        match value {
            Some(value) => value,
            None => Seq::empty(),
        },
    )
}

/// The raw pairs in the nonempty ones of `pieces`, in order.
pub open spec fn raw_pairs(pieces: Seq<Seq<u8>>) -> Seq<(Seq<u8>, Seq<u8>)>
    decreases pieces.len(),
{
    if pieces.len() == 0 {
        Seq::empty()
    } else if pieces[0].len() == 0 {
        raw_pairs(pieces.skip(1))
    } else {
        seq![raw_pair(pieces[0])] + raw_pairs(pieces.skip(1))
    }
}

/// The raw pairs of a raw query string: `&` separates pairs and `=` names from
/// values before anything is decoded.
pub open spec fn query_parts(raw: Seq<char>) -> Seq<(Seq<u8>, Seq<u8>)> {
    raw_pairs(split(encode_utf8(raw), 38))
}

/// The texts of raw pairs.
pub open spec fn form_pairs(parts: Seq<(Seq<u8>, Seq<u8>)>) -> Seq<(Seq<char>, Seq<char>)> {
    parts.map_values(|part: (Seq<u8>, Seq<u8>)| (form_text(part.0), form_text(part.1)))
}

/// The decoded pairs of a raw query string.
pub open spec fn query_pairs(raw: Seq<char>) -> Seq<(Seq<char>, Seq<char>)> {
    form_pairs(query_parts(raw))
}

/// Whether nothing in a raw form name or value has to be decoded.
pub open spec fn unescaped(raw: Seq<u8>) -> bool {
    !raw.contains(43) && !raw.contains(37)
}

/// What is raw in a query string is text, as the string is.
pub proof fn lemma_parts_are_text(raw: Seq<char>, index: int)
    requires
        0 <= index < query_parts(raw).len(),
    ensures
        valid_utf8(query_parts(raw)[index].0),
        valid_utf8(query_parts(raw)[index].1),
{
    let pieces = split(encode_utf8(raw), 38);
    encode_utf8_valid_utf8(raw);
    assert forall|i: int| 0 <= i < pieces.len() implies valid_utf8(#[trigger] pieces[i]) by {
        lemma_pieces_of_text(encode_utf8(raw), 38, i);
    }
    lemma_raw_pairs_are_text(pieces, index);
}

proof fn lemma_raw_pairs_are_text(pieces: Seq<Seq<u8>>, index: int)
    requires
        forall|i: int| 0 <= i < pieces.len() ==> valid_utf8(#[trigger] pieces[i]),
        0 <= index < raw_pairs(pieces).len(),
    ensures
        valid_utf8(raw_pairs(pieces)[index].0),
        valid_utf8(raw_pairs(pieces)[index].1),
    decreases pieces.len(),
{
    if pieces.len() > 0 {
        let piece = pieces[0];
        let rest = pieces.skip(1);
        assert forall|i: int| 0 <= i < rest.len() implies valid_utf8(#[trigger] rest[i]) by {
            assert(rest[i] == pieces[i + 1]);
        }
        if piece.len() == 0 {
            lemma_raw_pairs_are_text(rest, index);
        } else if index > 0 {
            lemma_raw_pairs_are_text(rest, index - 1);
        } else {
            lemma_first_of(piece, 61);
            let at = first_of(piece, 61);
            if at < piece.len() {
                lemma_text_around_ascii(piece, at);
            }
        }
    }
}

/// The value of the last pair that is named `key`.
pub open spec fn last_value(pairs: Seq<(Seq<char>, Seq<char>)>, key: Seq<char>) -> Option<Seq<char>>
    decreases pairs.len(),
{
    if pairs.len() == 0 {
        None
    } else if pairs.last().0 == key {
        Some(pairs.last().1)
    } else {
        last_value(pairs.drop_last(), key)
    }
}

/// The values of all pairs that are named `key`, in order.
pub open spec fn all_values(pairs: Seq<(Seq<char>, Seq<char>)>, key: Seq<char>) -> Seq<Seq<char>>
    decreases pairs.len(),
{
    if pairs.len() == 0 {
        Seq::empty()
    } else if pairs.last().0 == key {
        all_values(pairs.drop_last(), key).push(pairs.last().1)
    } else {
        all_values(pairs.drop_last(), key)
    }
}

/// The texts of `values`.
pub open spec fn texts(values: Seq<&str>) -> Seq<Seq<char>> {
    values.map_values(|value: &str| value@)
}

/// A single lookup gives the last of the values that a collecting one gives.
pub proof fn law_single_lookup_gives_the_last_value(pairs: Seq<(Seq<char>, Seq<char>)>, key: Seq<char>)
    ensures
        last_value(pairs, key) == (if all_values(pairs, key).len() == 0 {
            None
        } else {
            Some(all_values(pairs, key).last())
        }),
    decreases pairs.len(),
{
    if pairs.len() > 0 {
        law_single_lookup_gives_the_last_value(pairs.drop_last(), key);
    }
}

/// Whether a form holds this byte as it is: a letter, a digit, or one of `*`,
/// `-`, `.` and `_`.
pub open spec fn form_safe(byte: u8) -> bool {
    ||| byte == 42
    ||| byte == 45
    ||| byte == 46
    ||| byte == 95
    ||| 48 <= byte <= 57
    ||| 65 <= byte <= 90
    ||| 97 <= byte <= 122
}

/// How a form writes a name or value: a space as `+`, and any other byte that
/// it does not hold as it is as `%` and two hexadecimal digits.
pub open spec fn form_escaped(bytes: Seq<u8>) -> Seq<u8>
    decreases bytes.len(),
{
    if bytes.len() == 0 {
        Seq::empty()
    } else {
        let byte = bytes[0];
        (if form_safe(byte) {
            seq![byte]
        } else if byte == 32 {
            seq![43u8]
        } else {
            seq![37u8, hex_character(byte as int / 16), hex_character(byte as int % 16)]
        }) + form_escaped(bytes.skip(1))
    }
}

/// How a form writes a pair.
pub open spec fn form_piece(pair: (Seq<char>, Seq<char>)) -> Seq<u8> {
    form_escaped(encode_utf8(pair.0)) + seq![61u8] + form_escaped(encode_utf8(pair.1))
}

pub open spec fn form_pieces(pairs: Seq<(Seq<char>, Seq<char>)>) -> Seq<Seq<u8>> {
    pairs.map_values(|pair: (Seq<char>, Seq<char>)| form_piece(pair))
}

/// The URL-encoded form of pairs, with `&` between each two of them.
pub open spec fn form_encoded(pairs: Seq<(Seq<char>, Seq<char>)>) -> Seq<u8> {
    join(form_pieces(pairs), 38)
}

proof fn lemma_form_escaped(bytes: Seq<u8>)
    ensures
        percent_decoded(plus_as_space(form_escaped(bytes))) == bytes,
        !form_escaped(bytes).contains(38),
        !form_escaped(bytes).contains(61),
    decreases bytes.len(),
{
    if bytes.len() > 0 {
        let rest = form_escaped(bytes.skip(1));
        let escaped = form_escaped(bytes);
        let byte = bytes[0];
        let (high, low) = (byte as int / 16, byte as int % 16);
        lemma_form_escaped(bytes.skip(1));
        let size: int = if form_safe(byte) || byte == 32 {
            1
        } else {
            3
        };
        assert(escaped.skip(size) =~= rest);
        assert forall|i: int| size <= i < escaped.len() implies escaped[i] == rest[i - size] by {}
        assert forall|i: int| 0 <= i < escaped.len() implies escaped[i] != 38 && escaped[i]
            != 61 by {
            if i >= size {
                assert(escaped[i] == rest[i - size]);
                assert(rest.contains(escaped[i]));
            }
        }
        let plain = plus_as_space(escaped);
        assert(plain.skip(size) =~= plus_as_space(rest));
        assert(hex_digit(hex_character(high)) == Some(high));
        assert(hex_digit(hex_character(low)) == Some(low));
        assert(percent_decoded(plain) =~= seq![byte] + percent_decoded(plus_as_space(rest)));
        assert(seq![byte] + bytes.skip(1) =~= bytes);
    } else {
        assert(plus_as_space(form_escaped(bytes)) =~= Seq::<u8>::empty());
    }
}

proof fn lemma_form_text(text: Seq<char>)
    ensures
        form_text(form_escaped(encode_utf8(text))) == text,
{
    lemma_form_escaped(encode_utf8(text));
    encode_utf8_valid_utf8(text);
    law_valid_text_is_kept(encode_utf8(text));
    encode_utf8_decode_utf8(text);
}

proof fn lemma_form_piece(pair: (Seq<char>, Seq<char>))
    ensures
        form_piece(pair).len() > 0,
        !form_piece(pair).contains(38),
        form_text(raw_pair(form_piece(pair)).0) == pair.0,
        form_text(raw_pair(form_piece(pair)).1) == pair.1,
{
    let name = form_escaped(encode_utf8(pair.0));
    let value = form_escaped(encode_utf8(pair.1));
    let piece = form_piece(pair);
    lemma_form_escaped(encode_utf8(pair.0));
    lemma_form_escaped(encode_utf8(pair.1));
    lemma_form_text(pair.0);
    lemma_form_text(pair.1);
    assert forall|i: int| 0 <= i < piece.len() implies piece[i] != 38 by {
        if i < name.len() {
            assert(name.contains(piece[i]));
        } else if i > name.len() {
            assert(piece[i] == value[i - name.len() - 1]);
            assert(value.contains(piece[i]));
        }
    }
    assert forall|i: int| 0 <= i < name.len() implies piece[i] != 61 by {
        assert(name.contains(piece[i]));
    }
    lemma_first_of_unique(piece, 61, name.len() as int);
    assert(piece.take(name.len() as int) =~= name);
    assert(piece.skip(name.len() as int + 1) =~= value);
}

proof fn lemma_form_pieces(pairs: Seq<(Seq<char>, Seq<char>)>)
    ensures
        form_pairs(raw_pairs(form_pieces(pairs))) == pairs,
    decreases pairs.len(),
{
    if pairs.len() > 0 {
        let pieces = form_pieces(pairs);
        let rest = pairs.skip(1);
        lemma_form_piece(pairs[0]);
        lemma_form_pieces(rest);
        assert(pieces.skip(1) =~= form_pieces(rest));
        assert(form_pairs(raw_pairs(pieces)) =~= seq![pairs[0]] + form_pairs(
            raw_pairs(form_pieces(rest)),
        ));
        assert(seq![pairs[0]] + rest =~= pairs);
    } else {
        assert(form_pairs(raw_pairs(form_pieces(pairs))) =~= pairs);
    }
}

/// A URL-encoded form is decoded to the pairs that it was made of, whatever
/// characters they hold.
pub proof fn law_forms_are_decoded_to_their_pairs(
    pairs: Seq<(Seq<char>, Seq<char>)>,
    form: Seq<char>,
)
    requires
        encode_utf8(form) == form_encoded(pairs),
    ensures
        query_pairs(form) == pairs,
{
    let pieces = form_pieces(pairs);
    lemma_form_pieces(pairs);
    if pairs.len() > 0 {
        assert forall|i: int| 0 <= i < pieces.len() implies !(#[trigger] pieces[i]).contains(
            38,
        ) by {
            lemma_form_piece(pairs[i]);
        }
        lemma_split_join(pieces, 38);
    } else {
        reveal_with_fuel(raw_pairs, 2);
        assert(split(form_encoded(pairs), 38) =~= seq![Seq::<u8>::empty()]);
        assert(query_pairs(form) =~= pairs);
    }
}

/// One decoded name and value.
pub type QueryPair<'a> = (Cow<'a, str>, Cow<'a, str>);

pub open spec fn pair_text(pair: QueryPair<'_>) -> (Seq<char>, Seq<char>) {
    (pair.0@, pair.1@)
}

pub open spec fn pair_texts(pairs: Seq<QueryPair<'_>>) -> Seq<(Seq<char>, Seq<char>)> {
    pairs.map_values(|pair: QueryPair<'_>| pair_text(pair))
}

/// Whether a pair borrows what was not escaped in its raw name and value.
pub open spec fn borrows_unescaped(pair: QueryPair<'_>, part: (Seq<u8>, Seq<u8>)) -> bool {
    &&& unescaped(part.0) ==> pair.0 is Borrowed
    &&& unescaped(part.1) ==> pair.1 is Borrowed
}

/// Whether pairs are what raw ones stand for, one by one, and borrow what was
/// not escaped in them.
pub open spec fn decoded_from(pairs: Seq<QueryPair<'_>>, parts: Seq<(Seq<u8>, Seq<u8>)>) -> bool {
    &&& pair_texts(pairs) == form_pairs(parts)
    &&& forall|i: int|
        0 <= i < pairs.len() ==> borrows_unescaped(#[trigger] pairs[i], parts[i])
}

/// The iterator of `form_urlencoded` over the pairs of a form.
#[verifier::external_type_specification]
#[verifier::external_body]
pub struct ExParse<'a>(form_urlencoded::Parse<'a>);

/// The raw pairs that the iterator has still to decode.
pub uninterp spec fn parts_left(parse: form_urlencoded::Parse<'_>) -> Seq<(Seq<u8>, Seq<u8>)>;

/// `form_urlencoded::parse`: the nonempty pieces between `&`, each cut at its
/// first `=`. A piece without `=` has an empty value.
#[verifier::external_body]
fn form_parse(raw: &str) -> (parse: form_urlencoded::Parse<'_>)
    ensures
        parts_left(parse) == query_parts(raw@),
{
    form_urlencoded::parse(raw.as_bytes())
}

/// `Iterator::next` of `form_urlencoded::Parse`: takes the first of the pairs
/// that are left, with `+` read as a space and `%XX` decoded afterwards. A name
/// or value that is text and holds neither is borrowed from the form.
#[verifier::external_body]
fn next_pair<'a>(parse: &mut form_urlencoded::Parse<'a>) -> (pair: Option<QueryPair<'a>>)
    ensures
        match pair {
            Some(pair) => {
                let part = parts_left(*old(parse))[0];
                &&& parts_left(*old(parse)).len() > 0
                &&& pair_text(pair) == (form_text(part.0), form_text(part.1))
                &&& valid_utf8(part.0) && unescaped(part.0) ==> pair.0 is Borrowed
                &&& valid_utf8(part.1) && unescaped(part.1) ==> pair.1 is Borrowed
                &&& parts_left(*final(parse)) == parts_left(*old(parse)).skip(1)
            },
            None => parts_left(*old(parse)).len() == 0 && parts_left(*final(parse)).len() == 0,
        },
{
    parse.next()
}

proof fn lemma_decoded_push(
    pairs: Seq<QueryPair<'_>>,
    parts: Seq<(Seq<u8>, Seq<u8>)>,
    pair: QueryPair<'_>,
    part: (Seq<u8>, Seq<u8>),
)
    requires
        decoded_from(pairs, parts),
        pair_text(pair) == (form_text(part.0), form_text(part.1)),
        borrows_unescaped(pair, part),
    ensures
        decoded_from(pairs.push(pair), parts.push(part)),
{
    assert(pair_texts(pairs).len() == form_pairs(parts).len());
    assert(pair_texts(pairs.push(pair)) =~= pair_texts(pairs).push(pair_text(pair)));
    assert(form_pairs(parts.push(part)) =~= form_pairs(parts).push(
        (form_text(part.0), form_text(part.1)),
    ));
    assert forall|i: int| 0 <= i < pairs.push(pair).len() implies borrows_unescaped(
        #[trigger] pairs.push(pair)[i],
        parts.push(part)[i],
    ) by {
        if i < pairs.len() {
            assert(borrows_unescaped(pairs[i], parts[i]));
        }
    }
}

/// Decoded pairs, the first four without a heap allocation.
pub struct QueryPairs<'a> {
    inline: [Option<QueryPair<'a>>; 4],
    overflow: Vec<QueryPair<'a>>,
}

/// How many inline slots are in use, one after the other.
spec fn used(inline: Seq<Option<QueryPair<'_>>>) -> nat {
    if inline[0] is None {
        0
    } else if inline[1] is None {
        1
    } else if inline[2] is None {
        2
    } else if inline[3] is None {
        3
    } else {
        4
    }
}

/// The pairs in inline slots and behind them.
spec fn stored<'a>(
    inline: Seq<Option<QueryPair<'a>>>,
    overflow: Seq<QueryPair<'a>>,
) -> Seq<QueryPair<'a>> {
    Seq::new(
        used(inline) + overflow.len(),
        |i: int|
            if i < 4 {
                inline[i]->0
            } else {
                overflow[i - 4]
            },
    )
}

impl<'a> QueryPairs<'a> {
    #[verifier::type_invariant]
    spec fn filled_in_order(self) -> bool {
        &&& self.overflow@.len() > 0 ==> used(self.inline@) == 4
        &&& forall|i: int| used(self.inline@) <= i < 4 ==> #[trigger] self.inline@[i] is None
    }

    /// The pairs in their order.
    pub closed spec fn pairs(self) -> Seq<QueryPair<'a>> {
        stored(self.inline@, self.overflow@)
    }

    /// The texts of the pairs.
    pub open spec fn entries(self) -> Seq<(Seq<char>, Seq<char>)> {
        pair_texts(self.pairs())
    }

    /// How many pairs stand outside the inline slots.
    pub closed spec fn spilled(self) -> nat {
        self.overflow@.len()
    }

    /// Decodes a raw query string, borrowing from it what is not escaped.
    pub fn parse(raw: &'a str) -> (pairs: Self)
        ensures
            pairs.entries() == query_pairs(raw@),
            decoded_from(pairs.pairs(), query_parts(raw@)),
            pairs.spilled() == (if query_pairs(raw@).len() <= 4 {
                0
            } else {
                query_pairs(raw@).len() - 4
            }),
    {
        let mut inline: [Option<QueryPair<'a>>; 4] = [None, None, None, None];
        let mut overflow: Vec<QueryPair<'a>> = Vec::new();
        let mut parse = form_parse(raw);
        let mut index: usize = 0;
        let ghost all = query_parts(raw@);
        assert(all.skip(0) =~= all);
        assert(pair_texts(stored(inline@, overflow@)) =~= form_pairs(all.take(0)));
        loop
            invariant
                0 <= index <= 4,
                all == query_parts(raw@),
                index == used(inline@),
                forall|i: int| index <= i < 4 ==> inline@[i] is None,
                index < 4 ==> overflow@.len() == 0,
                index + overflow@.len() <= all.len(),
                decoded_from(stored(inline@, overflow@), all.take(index + overflow@.len())),
                parts_left(parse) == all.skip(index + overflow@.len()),
            decreases all.len() - index - overflow@.len(),
        {
            let ghost count = index + overflow@.len();
            match next_pair(&mut parse) {
                None => {
                    assert(all.take(count) =~= all);
                    return QueryPairs { inline, overflow };
                },
                Some(pair) => {
                    assert(all.skip(count)[0] == all[count]);
                    assert(all.skip(count).skip(1) =~= all.skip(count + 1));
                    let ghost before = stored(inline@, overflow@);
                    if index < 4 {
                        inline[index] = Some(pair);
                        index += 1;
                    } else {
                        overflow.push(pair);
                    }
                    proof {
                        lemma_parts_are_text(raw@, count);
                        lemma_decoded_push(before, all.take(count), pair, all[count]);
                        assert(stored(inline@, overflow@) =~= before.push(pair));
                        assert(all.take(count + 1) =~= all.take(count).push(all[count]));
                    }
                },
            }
        }
    }

    /// Every pair, in order.
    pub fn iter(&self) -> (pairs: Vec<&QueryPair<'a>>)
        ensures
            pairs@.map_values(|pair: &QueryPair<'a>| *pair) == self.pairs(),
    {
        proof {
            use_type_invariant(self);
        }
        let mut pairs: Vec<&QueryPair<'a>> = Vec::new();
        let mut i: usize = 0;
        while i < 4
            invariant
                0 <= i <= 4,
                self.filled_in_order(),
                pairs@.len() == (if i < used(self.inline@) {
                    i as nat
                } else {
                    used(self.inline@)
                }),
                forall|j: int|
                    0 <= j < pairs@.len() ==> *#[trigger] pairs@[j] == self.pairs()[j],
            decreases 4 - i,
        {
            if let Some(pair) = &self.inline[i] {
                pairs.push(pair);
            }
            i += 1;
        }
        let mut j: usize = 0;
        while j < self.overflow.len()
            invariant
                0 <= j <= self.overflow@.len(),
                self.filled_in_order(),
                pairs@.len() == used(self.inline@) + j,
                forall|k: int|
                    0 <= k < pairs@.len() ==> *#[trigger] pairs@[k] == self.pairs()[k],
            decreases self.overflow@.len() - j,
        {
            pairs.push(&self.overflow[j]);
            j += 1;
        }
        assert(pairs@.map_values(|pair: &QueryPair<'a>| *pair) =~= self.pairs());
        pairs
    }

    /// How many pairs stand outside the inline slots.
    pub fn overflow_len(&self) -> (count: usize)
        ensures
            count == self.spilled(),
    {
        self.overflow.len()
    }

    /// The value of the last pair that is named `key`.
    pub fn last(&self, key: &str) -> (value: Option<&str>)
        ensures
            match value {
                Some(value) => last_value(self.entries(), key@) == Some(value@),
                None => last_value(self.entries(), key@) is None,
            },
    {
        proof {
            use_type_invariant(self);
        }
        let ghost texts = self.entries();
        let ghost inline = used(self.inline@) as int;
        let mut j: usize = self.overflow.len();
        assert(texts.take(inline + j) =~= texts);
        while j > 0
            invariant
                0 <= j <= self.overflow@.len(),
                self.filled_in_order(),
                inline == used(self.inline@),
                texts == self.entries(),
                last_value(texts, key@) == last_value(texts.take(inline + j), key@),
            decreases j,
        {
            j -= 1;
            let pair = &self.overflow[j];
            assert(pair_text(*pair) == texts[inline + j]);
            assert(texts.take(inline + j + 1).drop_last() =~= texts.take(inline + j));
            if same_text(cow_text(&pair.0), key) {
                return Some(cow_text(&pair.1));
            }
        }
        let mut i: usize = 4;
        while i > 0
            invariant
                0 <= i <= 4,
                self.filled_in_order(),
                inline == used(self.inline@),
                texts == self.entries(),
                last_value(texts, key@) == last_value(
                    texts.take(if inline < i { inline } else { i as int }),
                    key@,
                ),
            decreases i,
        {
            i -= 1;
            if let Some(pair) = &self.inline[i] {
                assert(pair_text(*pair) == texts[i as int]);
                assert(texts.take(i + 1).drop_last() =~= texts.take(i as int));
                if same_text(cow_text(&pair.0), key) {
                    return Some(cow_text(&pair.1));
                }
            }
        }
        None
    }

    /// The values of all pairs that are named `key`, in order.
    pub fn all<'b>(&'b self, key: &str) -> (values: Vec<&'b str>)
        ensures
            texts(values@) == all_values(self.entries(), key@),
    {
        proof {
            use_type_invariant(self);
        }
        let ghost entries = self.entries();
        let ghost inline = used(self.inline@) as int;
        let mut values: Vec<&'b str> = Vec::new();
        let mut i: usize = 0;
        while i < 4
            invariant
                0 <= i <= 4,
                self.filled_in_order(),
                inline == used(self.inline@),
                entries == self.entries(),
                texts(values@) == all_values(
                    entries.take(if inline < i { inline } else { i as int }),
                    key@,
                ),
            decreases 4 - i,
        {
            if let Some(pair) = &self.inline[i] {
                assert(pair_text(*pair) == entries[i as int]);
                assert(entries.take(i + 1).drop_last() =~= entries.take(i as int));
                let ghost before = values@;
                if same_text(cow_text(&pair.0), key) {
                    values.push(cow_text(&pair.1));
                    assert(texts(values@) =~= texts(before).push(pair.1@));
                }
            }
            i += 1;
        }
        let mut j: usize = 0;
        while j < self.overflow.len()
            invariant
                0 <= j <= self.overflow@.len(),
                self.filled_in_order(),
                inline == used(self.inline@),
                entries == self.entries(),
                texts(values@) == all_values(entries.take(inline + j), key@),
            decreases self.overflow@.len() - j,
        {
            let pair = &self.overflow[j];
            assert(pair_text(*pair) == entries[inline + j]);
            assert(entries.take(inline + j + 1).drop_last() =~= entries.take(inline + j));
            let ghost before = values@;
            if same_text(cow_text(&pair.0), key) {
                values.push(cow_text(&pair.1));
                assert(texts(values@) =~= texts(before).push(pair.1@));
            }
            j += 1;
        }
        assert(entries.take(inline + j) =~= entries);
        values
    }
}

/// `std::sync::OnceLock`, a cell that is filled at most once.
#[verifier::external_type_specification]
#[verifier::external_body]
#[verifier::reject_recursive_types(T)]
pub struct ExOnceLock<T>(OnceLock<T>);

/// `OnceLock::new`, an empty cell.
pub assume_specification<T>[ OnceLock::<T>::new ]() -> OnceLock<T>
;

/// A query string that is decoded at the first lookup, and only then.
pub struct QueryParams<'a> {
    raw: &'a str,
    pairs: OnceLock<QueryPairs<'a>>,
}

impl<'a> QueryParams<'a> {
    /// The undecoded query.
    pub closed spec fn raw(self) -> Seq<char> {
        self.raw@
    }

    pub fn new(raw: Option<&'a str>) -> (params: Self)
        ensures
            params.raw() == match raw {
                Some(raw) => raw@,
                None => Seq::<char>::empty(),
            },
    {
        let raw = match raw {
            Some(raw) => raw,
            None => {
                proof {
                    reveal_strlit("");
                }
                ""
            },
        };
        QueryParams { raw, pairs: OnceLock::new() }
    }

    /// The decoded pairs, decoded now if this is the first lookup.
    pub fn pairs(&self) -> (pairs: &QueryPairs<'a>)
        ensures
            pairs.entries() == query_pairs(self.raw()),
            decoded_from(pairs.pairs(), query_parts(self.raw())),
    {
        self.filled()
    }

    /// `OnceLock::get_or_init`, which gives what the cell holds and first fills
    /// an empty one with the outcome of the closure. Nothing else fills the
    /// private cell, so it holds the pairs of the raw query whenever it holds
    /// anything.
    #[verifier::external_body]
    fn filled(&self) -> (pairs: &QueryPairs<'a>)
        ensures
            pairs.entries() == query_pairs(self.raw()),
            decoded_from(pairs.pairs(), query_parts(self.raw())),
    {
        self.pairs.get_or_init(|| QueryPairs::parse(self.raw))
    }

    /// The last value that is given for `key`.
    pub fn get(&self, key: &str) -> (value: Option<&str>)
        ensures
            match value {
                Some(value) => last_value(query_pairs(self.raw()), key@) == Some(value@),
                None => last_value(query_pairs(self.raw()), key@) is None,
            },
    {
        self.pairs().last(key)
    }

    /// Every value that is given for `key`, in order.
    pub fn values<'b>(&'b self, key: &str) -> (values: Vec<&'b str>)
        ensures
            texts(values@) == all_values(query_pairs(self.raw()), key@),
    {
        self.pairs().all(key)
    }

    /// `OnceLock::get`, which gives what the cell holds, if anything.
    #[verifier::external_body]
    fn cached(&self) -> (pairs: Option<&QueryPairs<'a>>)
        ensures
            pairs matches Some(pairs) ==> pairs.entries() == query_pairs(self.raw())
                && decoded_from(pairs.pairs(), query_parts(self.raw())),
    {
        self.pairs.get()
    }

    /// The pairs, if a lookup has decoded them already.
    pub fn decoded(&self) -> (pairs: Option<&QueryPairs<'a>>)
        ensures
            pairs matches Some(pairs) ==> pairs.entries() == query_pairs(self.raw())
                && decoded_from(pairs.pairs(), query_parts(self.raw())),
    {
        self.cached()
    }
}

/// A query object decoded by its field names.
#[derive(Debug)]
pub struct Query<T>(pub T);

} // verus!

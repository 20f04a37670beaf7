//! Splitting, comparing and slicing of text.
//!
//! Contracts speak of the characters of a string; the code works on its bytes.
use vstd::prelude::*;
use vstd::string::StringSliceAdditionalSpecFns;
use vstd::utf8::*;

verus! {

/// Position of the first `x` in `s`, or the length of `s` where there is none.
pub open spec fn first_of<T>(s: Seq<T>, x: T) -> int
    decreases s.len(),
{
    if s.len() == 0 || s[0] == x {
        0
    } else {
        1 + first_of(s.skip(1), x)
    }
}

/// The pieces of `s` between occurrences of `separator`; always at least one.
pub open spec fn split<T>(s: Seq<T>, separator: T) -> Seq<Seq<T>>
    decreases s.len(),
{
    if first_of(s, separator) == s.len() {
        seq![s]
    } else {
        proof {
            lemma_first_of(s, separator);
        }
        seq![s.take(first_of(s, separator))] + split(
            s.skip(first_of(s, separator) + 1),
            separator,
        )
    }
}

/// The pieces of `pieces` joined by `separator`; the inverse of [`split`].
pub open spec fn join<T>(pieces: Seq<Seq<T>>, separator: T) -> Seq<T>
    decreases pieces.len(),
{
    if pieces.len() == 0 {
        Seq::empty()
    } else if pieces.len() == 1 {
        pieces[0]
    } else {
        pieces[0] + seq![separator] + join(pieces.skip(1), separator)
    }
}

/// What stands before the first `separator`, and what follows it if it occurs.
pub open spec fn cut<T>(s: Seq<T>, separator: T) -> (Seq<T>, Option<Seq<T>>) {
    let at = first_of(s, separator);
    if at == s.len() {
        (s, None)
    } else {
        (s.take(at), Some(s.skip(at + 1)))
    }
}

pub open spec fn starts_with<T>(s: Seq<T>, x: T) -> bool {
    s.len() > 0 && s[0] == x
}

/// An ASCII letter's lower-case form; every other byte is its own.
pub open spec fn lower(byte: u8) -> u8 {
    if 65 <= byte <= 90 {
        (byte + 32) as u8
    } else {
        byte
    }
}

/// Equality of bytes up to the case of ASCII letters.
pub open spec fn same_ignoring_case(left: Seq<u8>, right: Seq<u8>) -> bool {
    left.len() == right.len() && forall|i: int|
        0 <= i < left.len() ==> lower(#[trigger] left[i]) == lower(right[i])
}

pub proof fn lemma_first_of<T>(s: Seq<T>, x: T)
    ensures
        0 <= first_of(s, x) <= s.len(),
        first_of(s, x) < s.len() ==> s[first_of(s, x)] == x,
        forall|i: int| 0 <= i < first_of(s, x) ==> s[i] != x,
        first_of(s, x) < s.len() <==> s.contains(x),
    decreases s.len(),
{
    if s.len() > 0 && s[0] != x {
        let rest = s.skip(1);
        lemma_first_of(rest, x);
        assert forall|i: int| 0 <= i < first_of(s, x) implies s[i] != x by {
            if i > 0 {
                assert(rest[i - 1] == s[i]);
            }
        }
        if s.contains(x) {
            let i = choose|i: int| 0 <= i < s.len() && s[i] == x;
            assert(rest[i - 1] == x);
        }
    }
}

pub proof fn lemma_first_of_unique<T>(s: Seq<T>, x: T, at: int)
    requires
        0 <= at <= s.len(),
        at < s.len() ==> s[at] == x,
        forall|i: int| 0 <= i < at ==> s[i] != x,
    ensures
        first_of(s, x) == at,
{
    lemma_first_of(s, x);
}

/// Joining what splitting gave restores the text.
pub proof fn lemma_join_split<T>(s: Seq<T>, separator: T)
    ensures
        split(s, separator).len() >= 1,
        join(split(s, separator), separator) == s,
    decreases s.len(),
{
    lemma_first_of(s, separator);
    let at = first_of(s, separator);
    if at < s.len() {
        let rest = s.skip(at + 1);
        lemma_join_split(rest, separator);
        let pieces = split(s, separator);
        assert(pieces.skip(1) =~= split(rest, separator));
        assert(pieces[0] == s.take(at));
        assert(s =~= s.take(at) + seq![separator] + rest);
    }
}

/// No piece of a split holds the separator.
pub proof fn lemma_split_pieces<T>(s: Seq<T>, separator: T, index: int)
    requires
        0 <= index < split(s, separator).len(),
    ensures
        !split(s, separator)[index].contains(separator),
    decreases s.len(),
{
    lemma_first_of(s, separator);
    let at = first_of(s, separator);
    if at < s.len() && index > 0 {
        lemma_split_pieces(s.skip(at + 1), separator, index - 1);
    } else if at < s.len() {
        assert(split(s, separator)[0] == s.take(at));
        assert(!s.take(at).contains(separator));
    }
}

/// A piece of a split holds nothing that the whole does not hold.
pub proof fn lemma_split_holds_no_more<T>(s: Seq<T>, separator: T, index: int, x: T)
    requires
        0 <= index < split(s, separator).len(),
        !s.contains(x),
    ensures
        !split(s, separator)[index].contains(x),
    decreases s.len(),
{
    lemma_first_of(s, separator);
    let at = first_of(s, separator);
    if at < s.len() {
        let rest = s.skip(at + 1);
        if index > 0 {
            assert(!rest.contains(x)) by {
                if rest.contains(x) {
                    let i = choose|i: int| 0 <= i < rest.len() && rest[i] == x;
                    assert(s[i + at + 1] == x);
                }
            }
            lemma_split_holds_no_more(rest, separator, index - 1, x);
            assert(split(s, separator)[index] == split(rest, separator)[index - 1]);
        } else {
            let piece = s.take(at);
            assert(split(s, separator)[0] == piece);
            if piece.contains(x) {
                let i = choose|i: int| 0 <= i < piece.len() && piece[i] == x;
                assert(s[i] == x);
            }
        }
    }
}

/// An ASCII character occurs in a text exactly where its byte occurs in the encoding.
pub proof fn lemma_ascii_in_encoding(chars: Seq<char>, c: char)
    requires
        c as u32 <= 127,
    ensures
        encode_utf8(chars).contains(c as u8) <==> chars.contains(c),
    decreases chars.len(),
{
    if chars.len() > 0 {
        let head = encode_scalar(chars[0] as u32);
        let rest = chars.drop_first();
        let tail = encode_utf8(rest);
        lemma_ascii_in_encoding(rest, c);
        assert(encode_utf8(chars) == head + tail);
        lemma_scalar_bytes(chars[0], c);
        if chars.contains(c) {
            let i = choose|i: int| 0 <= i < chars.len() && chars[i] == c;
            if i == 0 {
                assert(head[0] == c as u8);
                assert((head + tail)[0] == c as u8);
            } else {
                assert(rest[i - 1] == c);
                assert(tail.contains(c as u8));
                let j = choose|j: int| 0 <= j < tail.len() && tail[j] == c as u8;
                assert((head + tail)[head.len() + j] == c as u8);
            }
        }
        if encode_utf8(chars).contains(c as u8) {
            let j = choose|j: int|
                0 <= j < (head + tail).len() && (head + tail)[j] == c as u8;
            if j < head.len() {
                assert(chars[0] == c);
            } else {
                assert(tail[j - head.len()] == c as u8);
                assert(rest.contains(c));
                let i = choose|i: int| 0 <= i < rest.len() && rest[i] == c;
                assert(chars[i + 1] == c);
            }
        }
    }
}

pub(crate) proof fn lemma_scalar_bytes(first: char, c: char)
    requires
        c as u32 <= 127,
    ensures
        first == c ==> encode_scalar(first as u32) == seq![c as u8],
        first != c ==> !encode_scalar(first as u32).contains(c as u8),
        encode_scalar(first as u32).len() >= 1,
        first != c ==> encode_scalar(first as u32)[0] != c as u8,
{
    let v = first as u32;
    char_is_scalar(first);
    if has_width_1_encoding(v) {
        assert((v & 0x7f) as u8 == v as u8 && v & 0x7f == v) by (bit_vector)
            requires
                v <= 0x7f,
        ;
        assert(encode_scalar(v) =~= seq![v as u8]);
    } else {
        let b = encode_scalar(v);
        lemma_high_bytes(v);
        assert forall|i: int| 0 <= i < b.len() implies b[i] != c as u8 by {}
    }
}

proof fn lemma_high_bytes(v: u32)
    requires
        is_scalar(v),
        !has_width_1_encoding(v),
    ensures
        forall|i: int| 0 <= i < encode_scalar(v).len() ==> encode_scalar(v)[i] >= 128,
        encode_scalar(v).len() >= 2,
{
    assert((0xc0u8 | ((v >> 6) & 0x1f) as u8) >= 128 && (0xe0u8 | ((v >> 12) & 0x0f) as u8) >= 128
        && (0xf0u8 | ((v >> 18) & 0x07) as u8) >= 128 && (0x80u8 | (v & 0x3f) as u8) >= 128
        && (0x80u8 | ((v >> 6) & 0x3f) as u8) >= 128 && (0x80u8 | ((v >> 12) & 0x3f) as u8) >= 128)
        by (bit_vector);
}

/// The text of a string follows from its bytes.
pub proof fn lemma_text_of_bytes(left: Seq<char>, right: Seq<char>)
    requires
        encode_utf8(left) == encode_utf8(right),
    ensures
        left == right,
{
    encode_utf8_decode_utf8(left);
    encode_utf8_decode_utf8(right);
}

/// Whether some scalar's encoding begins with these bytes.
pub open spec fn begins_scalar(bytes: Seq<u8>) -> bool {
    exists|c: char|
        bytes.len() <= (#[trigger] encode_utf8(seq![c])).len() && encode_utf8(seq![c]).take(
            bytes.len() as int,
        ) == bytes
}

/// How many bytes one replacement character stands for, where bytes do not
/// start with a scalar: as many as could still have become one, and at least one.
pub open spec fn broken_length(bytes: Seq<u8>) -> int {
    if bytes.len() >= 3 && begins_scalar(bytes.take(3)) {
        3
    } else if bytes.len() >= 2 && begins_scalar(bytes.take(2)) {
        2
    } else {
        1
    }
}

/// The text of bytes, with replacement characters where they are not UTF-8.
pub open spec fn lossy(bytes: Seq<u8>) -> Seq<char>
    decreases bytes.len(),
{
    if bytes.len() == 0 {
        Seq::empty()
    } else if valid_first_scalar(bytes) {
        seq![decode_first_scalar(bytes) as char] + lossy(pop_first_scalar(bytes))
    } else {
        seq!['\u{fffd}'] + lossy(bytes.skip(broken_length(bytes)))
    }
}

/// Bytes that are UTF-8 are read as they are.
pub proof fn law_valid_text_is_kept(bytes: Seq<u8>)
    requires
        valid_utf8(bytes),
    ensures
        lossy(bytes) == decode_utf8(bytes),
    decreases bytes.len(),
{
    if bytes.len() > 0 {
        law_valid_text_is_kept(pop_first_scalar(bytes));
    }
}

/// Cutting an encoded text at an ASCII byte cuts the text at that character.
proof fn lemma_cut_at_ascii(chars: Seq<char>, at: int, c: char)
    requires
        c as u32 <= 127,
        0 <= at < encode_utf8(chars).len(),
        encode_utf8(chars)[at] == c as u8,
    ensures
        ({
            let bytes = encode_utf8(chars);
            let before = bytes.subrange(0, at);
            let from = bytes.subrange(at, bytes.len() as int);
            let after = bytes.subrange(at + 1, bytes.len() as int);
            &&& is_char_boundary(bytes, at)
            &&& valid_utf8(from)
            &&& is_char_boundary(from, 1)
            &&& valid_utf8(before)
            &&& valid_utf8(after)
            &&& chars == decode_utf8(before) + seq![c] + decode_utf8(after)
        }),
{
    let bytes = encode_utf8(chars);
    let before = bytes.subrange(0, at);
    let from = bytes.subrange(at, bytes.len() as int);
    let after = bytes.subrange(at + 1, bytes.len() as int);
    encode_utf8_valid_utf8(chars);
    encode_utf8_decode_utf8(chars);
    is_char_boundary_iff_not_is_continuation_byte(bytes, at);
    valid_utf8_split(bytes, at);
    decode_utf8_split(bytes, at);
    assert(from[0] == c as u8);
    let b = c as u8;
    assert((b & 0x7F) as u32 == b as u32) by (bit_vector)
        requires
            b <= 127,
    ;
    assert(is_leading_byte_width_1(from[0]));
    assert(pop_first_scalar(from) =~= after);
    reveal_with_fuel(is_char_boundary, 2);
    reveal_with_fuel(decode_utf8, 2);
    reveal_with_fuel(valid_utf8, 2);
    assert(decode_first_scalar(from) == c as u32);
    assert(decode_utf8(from) =~= seq![c] + decode_utf8(after));
}

/// What stands before and behind an ASCII byte of a text is text.
pub proof fn lemma_text_around_ascii(bytes: Seq<u8>, at: int)
    requires
        valid_utf8(bytes),
        0 <= at < bytes.len(),
        bytes[at] <= 127,
    ensures
        valid_utf8(bytes.take(at)),
        valid_utf8(bytes.skip(at + 1)),
{
    decode_utf8_encode_utf8(bytes);
    lemma_cut_at_ascii(decode_utf8(bytes), at, bytes[at] as char);
    assert(bytes.take(at) =~= bytes.subrange(0, at));
    assert(bytes.skip(at + 1) =~= bytes.subrange(at + 1, bytes.len() as int));
}

/// The pieces of a text between ASCII bytes are text.
pub proof fn lemma_pieces_of_text(bytes: Seq<u8>, separator: u8, index: int)
    requires
        valid_utf8(bytes),
        separator <= 127,
        0 <= index < split(bytes, separator).len(),
    ensures
        valid_utf8(split(bytes, separator)[index]),
    decreases bytes.len(),
{
    lemma_first_of(bytes, separator);
    let at = first_of(bytes, separator);
    if at < bytes.len() {
        lemma_text_around_ascii(bytes, at);
        if index > 0 {
            lemma_pieces_of_text(bytes.skip(at + 1), separator, index - 1);
        }
    }
}

/// Splitting what was joined restores pieces that do not hold the separator.
pub proof fn lemma_split_join<T>(pieces: Seq<Seq<T>>, separator: T)
    requires
        pieces.len() >= 1,
        forall|i: int| 0 <= i < pieces.len() ==> !(#[trigger] pieces[i]).contains(separator),
    ensures
        split(join(pieces, separator), separator) == pieces,
    decreases pieces.len(),
{
    let whole = join(pieces, separator);
    let first = pieces[0];
    assert(!first.contains(separator));
    if pieces.len() == 1 {
        lemma_first_of(first, separator);
        assert(split(whole, separator) =~= pieces);
    } else {
        let rest = pieces.skip(1);
        assert forall|i: int| 0 <= i < rest.len() implies !(#[trigger] rest[i]).contains(
            separator,
        ) by {
            assert(!pieces[i + 1].contains(separator));
        }
        lemma_split_join(rest, separator);
        assert forall|i: int| 0 <= i < first.len() implies whole[i] != separator by {
            assert(first[i] == whole[i]);
        }
        lemma_first_of_unique(whole, separator, first.len() as int);
        assert(whole.take(first.len() as int) =~= first);
        assert(whole.skip(first.len() as int + 1) =~= join(rest, separator));
        assert(split(whole, separator) =~= seq![first] + rest);
        assert(seq![first] + rest =~= pieces);
    }
}

/// Whether the bytes of `value` are those of `expected` up to ASCII case.
pub fn eq_ignore_case(value: &[u8], expected: &[u8]) -> (same: bool)
    ensures
        same == same_ignoring_case(value@, expected@),
{
    if value.len() != expected.len() {
        return false;
    }
    let mut i: usize = 0;
    while i < value.len()
        invariant
            0 <= i <= value.len() == expected.len(),
            forall|j: int| 0 <= j < i ==> lower(#[trigger] value@[j]) == lower(expected@[j]),
        decreases value.len() - i,
    {
        if lower_byte(value[i]) != lower_byte(expected[i]) {
            return false;
        }
        i += 1;
    }
    true
}

pub fn lower_byte(byte: u8) -> (lowered: u8)
    ensures
        lowered == lower(byte),
{
    if byte >= 65 && byte <= 90 {
        byte + 32
    } else {
        byte
    }
}

pub fn same_bytes(left: &[u8], right: &[u8]) -> (same: bool)
    ensures
        same == (left@ == right@),
{
    if left.len() != right.len() {
        return false;
    }
    let mut i: usize = 0;
    while i < left.len()
        invariant
            0 <= i <= left.len() == right.len(),
            forall|j: int| 0 <= j < i ==> left@[j] == right@[j],
        decreases left.len() - i,
    {
        if left[i] != right[i] {
            return false;
        }
        i += 1;
    }
    assert(left@ =~= right@);
    true
}

pub fn same_text(left: &str, right: &str) -> (same: bool)
    ensures
        same == (left@ == right@),
{
    let same = same_bytes(left.as_bytes(), right.as_bytes());
    proof {
        if same {
            lemma_text_of_bytes(left@, right@);
        }
    }
    same
}

/// Position of the first `byte` in `bytes`, or their length.
pub fn find_byte(bytes: &[u8], byte: u8) -> (at: usize)
    ensures
        at == first_of(bytes@, byte),
        at <= bytes@.len(),
{
    let mut i: usize = 0;
    while i < bytes.len()
        invariant
            0 <= i <= bytes.len(),
            forall|j: int| 0 <= j < i ==> bytes@[j] != byte,
        decreases bytes.len() - i,
    {
        if bytes[i] == byte {
            proof {
                lemma_first_of_unique(bytes@, byte, i as int);
            }
            return i;
        }
        i += 1;
    }
    proof {
        lemma_first_of_unique(bytes@, byte, bytes@.len() as int);
    }
    i
}

/// Whether the ASCII character `c` occurs in `s`.
pub fn contains_ascii(s: &str, c: u8) -> (found: bool)
    requires
        c < 128,
    ensures
        found == s@.contains(c as char),
{
    let bytes = s.as_bytes();
    let at = find_byte(bytes, c);
    proof {
        lemma_first_of(bytes@, c);
        lemma_ascii_in_encoding(s@, c as char);
    }
    at < bytes.len()
}

/// Whether `s` begins with the ASCII character `c`.
pub fn starts_with_ascii(s: &str, c: u8) -> (starts: bool)
    requires
        c < 128,
    ensures
        starts == starts_with(s@, c as char),
{
    let bytes = s.as_bytes();
    proof {
        if s@.len() > 0 {
            lemma_scalar_bytes(s@[0], c as char);
        }
    }
    bytes.len() > 0 && bytes[0] == c
}

/// What stands before and after the first `separator` of `s`.
pub fn split_once<'a>(s: &'a str, separator: u8) -> (halves: Option<(&'a str, &'a str)>)
    requires
        separator < 128,
    ensures
        match halves {
            Some((before, after)) => cut(s@, separator as char) == (before@, Some(after@)),
            None => cut(s@, separator as char) == (s@, None::<Seq<char>>),
        },
{
    let ghost c = separator as char;
    let at = find_byte(s.as_bytes(), separator);
    proof {
        lemma_first_of(s.spec_bytes(), separator);
        lemma_ascii_in_encoding(s@, c);
        lemma_first_of(s@, c);
    }
    if at == s.as_bytes().len() {
        return None;
    }
    proof {
        lemma_cut_at_ascii(s@, at as int, c);
    }
    let (before, from) = s.split_at(at);
    let (_, after) = from.split_at(1);
    proof {
        let bytes = s.spec_bytes();
        assert(after.spec_bytes() =~= bytes.subrange(at + 1, bytes.len() as int));
        encode_utf8_decode_utf8(before@);
        encode_utf8_decode_utf8(after@);
        assert(!before@.contains(c)) by {
            lemma_ascii_in_encoding(before@, c);
        }
        assert(s@[before@.len() as int] == c);
        assert forall|i: int| 0 <= i < before@.len() implies s@[i] != c by {
            assert(before@[i] == s@[i]);
        }
        lemma_first_of_unique(s@, c, before@.len() as int);
        assert(s@.take(before@.len() as int) =~= before@);
        assert(s@.skip(before@.len() as int + 1) =~= after@);
    }
    Some((before, after))
}

/// The pieces of a text that are still to be visited, in order.
pub struct Pieces<'a> {
    rest: Option<&'a str>,
    separator: u8,
}

impl<'a> Pieces<'a> {
    #[verifier::type_invariant]
    spec fn ascii_separator(self) -> bool {
        self.separator < 128
    }

    pub closed spec fn separator(self) -> char {
        self.separator as char
    }

    /// The text that is still to be visited.
    pub closed spec fn rest(self) -> Option<Seq<char>> {
        match self.rest {
            Some(rest) => Some(rest@),
            None => None,
        }
    }

    /// The pieces that are still to be visited.
    pub open spec fn pieces(self) -> Seq<Seq<char>> {
        match self.rest() {
            Some(rest) => split(rest, self.separator()),
            None => Seq::empty(),
        }
    }

    pub fn new(text: &'a str, separator: u8) -> (pieces: Self)
        requires
            separator < 128,
        ensures
            pieces.separator() == separator as char,
            pieces.rest() == Some(text@),
    {
        Pieces { rest: Some(text), separator }
    }

    /// The unvisited text, the empty one where every piece was visited.
    pub fn remainder(&self) -> (text: &'a str)
        ensures
            text@ == join(self.pieces(), self.separator()),
    {
        match self.rest {
            Some(rest) => {
                proof {
                    lemma_join_split(rest@, self.separator());
                }
                rest
            },
            None => {
                proof {
                    reveal_strlit("");
                }
                ""
            },
        }
    }

    /// Takes the next piece.
    pub fn next(&mut self) -> (piece: Option<&'a str>)
        ensures
            final(self).separator() == old(self).separator(),
            match piece {
                Some(piece) => {
                    &&& old(self).pieces().len() > 0
                    &&& piece@ == old(self).pieces()[0]
                    &&& final(self).pieces() == old(self).pieces().skip(1)
                },
                None => old(self).pieces().len() == 0 && final(self).pieces().len() == 0,
            },
    {
        proof {
            use_type_invariant(&*self);
        }
        match self.rest {
            None => None,
            Some(rest) => {
                proof {
                    lemma_first_of(rest@, self.separator());
                    lemma_join_split(rest@, self.separator());
                }
                match split_once(rest, self.separator) {
                    None => {
                        self.rest = None;
                        proof {
                            assert(old(self).pieces().skip(1) =~= self.pieces());
                        }
                        Some(rest)
                    },
                    Some((before, after)) => {
                        self.rest = Some(after);
                        proof {
                            assert(old(self).pieces().skip(1) =~= self.pieces());
                        }
                        Some(before)
                    },
                }
            },
        }
    }
}

/// The texts of `pieces` with `glue` between each two of them.
pub open spec fn glued(pieces: Seq<Seq<char>>, glue: Seq<char>) -> Seq<char>
    decreases pieces.len(),
{
    if pieces.len() == 0 {
        Seq::empty()
    } else if pieces.len() == 1 {
        pieces[0]
    } else {
        glued(pieces.drop_last(), glue) + glue + pieces.last()
    }
}

/// The texts of owned strings.
pub open spec fn string_texts(values: Seq<String>) -> Seq<Seq<char>> {
    values.map_values(|value: String| value@)
}

/// Appends `piece` to texts that were glued already.
pub proof fn lemma_glued_push(pieces: Seq<Seq<char>>, piece: Seq<char>, glue: Seq<char>)
    ensures
        glued(pieces.push(piece), glue) == (if pieces.len() == 0 {
            piece
        } else {
            glued(pieces, glue) + glue + piece
        }),
{
    assert(pieces.push(piece).drop_last() =~= pieces);
}

/// Joins `values`, with `glue` between each two of them.
pub fn glue_strings(values: &Vec<String>, glue: &str) -> (joined: String)
    ensures
        joined@ == glued(string_texts(values@), glue@),
{
    let mut joined = String::new();
    let mut i: usize = 0;
    while i < values.len()
        invariant
            0 <= i <= values@.len(),
            joined@ == glued(string_texts(values@.take(i as int)), glue@),
        decreases values@.len() - i,
    {
        proof {
            let done = string_texts(values@.take(i as int));
            assert(string_texts(values@.take(i + 1)) =~= done.push(values@[i as int]@));
            lemma_glued_push(done, values@[i as int]@, glue@);
        }
        if i > 0 {
            joined.append(glue);
        }
        joined.append(values[i].as_str());
        i += 1;
        assert(joined@ =~= glued(string_texts(values@.take(i as int)), glue@));
    }
    assert(values@.take(i as int) =~= values@);
    joined
}

/// The lower-case hexadecimal digit of a value below sixteen.
pub open spec fn hex_char(value: int) -> char {
    if value < 10 {
        (48 + value) as char
    } else {
        (87 + value) as char
    }
}

/// The decimal digits of `value`.
pub open spec fn decimal(value: nat) -> Seq<char>
    decreases value,
{
    if value < 10 {
        seq![(48 + value) as char]
    } else {
        decimal(value / 10).push((48 + value % 10) as char)
    }
}

/// The error of `std::str::from_utf8`.
#[verifier::external_type_specification]
#[verifier::external_body]
pub struct ExUtf8Error(std::str::Utf8Error);

/// `std::str::from_utf8`: the text of the bytes, if they are UTF-8.
pub assume_specification[ std::str::from_utf8 ](bytes: &[u8]) -> (text: Result<
    &str,
    std::str::Utf8Error,
>)
    ensures
        match text {
            Ok(text) => valid_utf8(bytes@) && text.spec_bytes() == bytes@,
            Err(_) => !valid_utf8(bytes@),
        },
;

/// The text of the bytes, if they are UTF-8.
pub open spec fn utf8_text(bytes: Seq<u8>) -> Option<Seq<char>> {
    if valid_utf8(bytes) {
        Some(decode_utf8(bytes))
    } else {
        None
    }
}

pub fn text_of_bytes(bytes: &[u8]) -> (text: Option<&str>)
    ensures
        match text {
            Some(text) => utf8_text(bytes@) == Some(text@) && text.spec_bytes() == bytes@,
            None => utf8_text(bytes@) is None,
        },
{
    match std::str::from_utf8(bytes) {
        Ok(text) => {
            proof {
                encode_utf8_decode_utf8(text@);
            }
            Some(text)
        },
        Err(_) => None,
    }
}

/// The characters with the Unicode property `White_Space`.
pub open spec fn white_space(c: char) -> bool {
    let v = c as u32;
    ||| 0x9 <= v <= 0xd
    ||| v == 0x20
    ||| v == 0x85
    ||| v == 0xa0
    ||| v == 0x1680
    ||| 0x2000 <= v <= 0x200a
    ||| v == 0x2028
    ||| v == 0x2029
    ||| v == 0x202f
    ||| v == 0x205f
    ||| v == 0x3000
}

/// `text` without the white space at its start.
pub open spec fn trim_start(text: Seq<char>) -> Seq<char>
    decreases text.len(),
{
    if text.len() > 0 && white_space(text[0]) {
        trim_start(text.skip(1))
    } else {
        text
    }
}

/// `text` without the white space at its end.
pub open spec fn trim_end(text: Seq<char>) -> Seq<char>
    decreases text.len(),
{
    if text.len() > 0 && white_space(text.last()) {
        trim_end(text.drop_last())
    } else {
        text
    }
}

/// `str::trim`: the text without the characters of the property `White_Space`
/// at its start and end.
#[verifier::external_body]
pub(crate) fn trim(text: &str) -> (trimmed: &str)
    ensures
        trimmed@ == trim_end(trim_start(text@)),
{
    text.trim()
}

/// `String::push`: appends a character.
#[verifier::external_body]
pub(crate) fn push_char(text: &mut String, c: char)
    ensures
        final(text)@ == old(text)@.push(c),
{
    text.push(c);
}

} // verus!

//! The fields of log lines, cut and cleaned when a line is written.
use brz_io::ReaderView;

use vstd::prelude::*;
use vstd::string::StringSliceAdditionalSpecFns;
use vstd::utf8::*;

use crate::request::find_header;
#[allow(unused_imports)]
use crate::request::{header_value, view_bytes};
use crate::server::ParsedHead;
use crate::text::{push_char, text_of_bytes};
#[allow(unused_imports)]
use crate::text::{begins_scalar, broken_length, lossy, utf8_text};

verus! {

/// How many bytes of a method are logged.
pub const METHOD_BYTES: usize = 16;

/// How many bytes of a target are logged.
pub const TARGET_BYTES: usize = 128;

/// How many bytes of a body are read for the log, and how many are written.
pub const EXCERPT_BYTES: usize = 512;

/// The longest beginning of a text whose encoding has at most `capacity` bytes.
pub open spec fn cut_text(text: Seq<char>, capacity: int) -> Seq<char>
    decreases text.len(),
{
    if text.len() == 0 || encode_utf8(text).len() <= capacity {
        text
    } else {
        cut_text(text.drop_last(), capacity)
    }
}

proof fn lemma_encode_concat(left: Seq<char>, right: Seq<char>)
    ensures
        encode_utf8(left + right) == encode_utf8(left) + encode_utf8(right),
    decreases left.len(),
{
    if left.len() == 0 {
        assert(left + right =~= right);
        assert(encode_utf8(left) + encode_utf8(right) =~= encode_utf8(right));
    } else {
        let all = left + right;
        assert(all.drop_first() =~= left.drop_first() + right);
        lemma_encode_concat(left.drop_first(), right);
        assert(encode_utf8(all) =~= encode_utf8(left) + encode_utf8(right));
    }
}

pub(crate) proof fn lemma_encode_one(c: char)
    ensures
        encode_utf8(seq![c]) == encode_scalar(c as u32),
{
    reveal_with_fuel(encode_utf8, 2);
    assert(seq![c].drop_first() =~= Seq::<char>::empty());
    assert(encode_utf8(seq![c]) =~= encode_scalar(c as u32));
}

/// A beginning that fits, behind which no further character does, is the
/// longest that fits.
proof fn lemma_cut_text(kept: Seq<char>, rest: Seq<char>, capacity: int)
    requires
        encode_utf8(kept).len() <= capacity,
        rest.len() > 0 ==> encode_utf8(kept.push(rest[0])).len() > capacity,
    ensures
        cut_text(kept + rest, capacity) == kept,
    decreases rest.len(),
{
    let text = kept + rest;
    if rest.len() == 0 {
        assert(text =~= kept);
    } else {
        assert(text =~= kept.push(rest[0]) + rest.drop_first());
        lemma_encode_concat(kept.push(rest[0]), rest.drop_first());
        assert(text.drop_last() =~= kept + rest.drop_last());
        if rest.len() == 1 {
            assert(kept + rest.drop_last() =~= kept);
        }
        lemma_cut_text(kept, rest.drop_last(), capacity);
    }
}

/// The first boundary behind a boundary follows the scalar that starts there.
proof fn lemma_next_boundary(bytes: Seq<u8>, index: int)
    requires
        valid_utf8(bytes),
        is_char_boundary(bytes, index),
        0 <= index < bytes.len(),
    ensures
        ({
            let rest = bytes.subrange(index, bytes.len() as int);
            let next = index + length_of_first_scalar(rest);
            &&& valid_utf8(rest)
            &&& rest.len() > 0
            &&& 0 < length_of_first_scalar(rest) <= rest.len()
            &&& is_char_boundary(bytes, next)
        }),
{
    valid_utf8_split(bytes, index);
    let rest = bytes.subrange(index, bytes.len() as int);
    let next = index + length_of_first_scalar(rest);
    if next == bytes.len() {
        is_char_boundary_start_end_of_seq(bytes);
    } else {
        let tail = pop_first_scalar(rest);
        assert(valid_utf8(tail));
        assert(valid_first_scalar(tail));
        assert(tail[0] == bytes[next]);
        assert(!is_continuation_byte(bytes[next]));
        is_char_boundary_iff_not_is_continuation_byte(bytes, next);
    }
}

/// The beginning of a text that fits into `capacity` bytes.
pub fn prefix(text: &str, capacity: usize) -> (kept: &str)
    ensures
        kept@ == cut_text(text@, capacity as int),
{
    let ghost bytes = text.spec_bytes();
    let length: usize = text.as_bytes().len();
    let limit: usize = if length < capacity {
        length
    } else {
        capacity
    };
    proof {
        encode_utf8_valid_utf8(text@);
        is_char_boundary_start_end_of_seq(bytes);
    }
    let mut end: usize = limit;
    while !text.is_char_boundary(end)
        invariant
            end <= limit <= bytes.len(),
            bytes == text.spec_bytes(),
            valid_utf8(bytes),
            is_char_boundary(bytes, 0),
            forall|i: int| end < i <= limit ==> !is_char_boundary(bytes, i),
        decreases end,
    {
        end -= 1;
    }
    let (kept, rest) = text.split_at(end);
    proof {
        valid_utf8_split(bytes, end as int);
        decode_utf8_split(bytes, end as int);
        encode_utf8_decode_utf8(text@);
        encode_utf8_decode_utf8(kept@);
        encode_utf8_decode_utf8(rest@);
        assert(text@ == kept@ + rest@);
        if rest@.len() > 0 {
            encode_utf8_first_scalar(rest@);
            assert(rest.spec_bytes().len() > 0);
            lemma_next_boundary(bytes, end as int);
            assert(bytes.subrange(end as int, bytes.len() as int) == rest.spec_bytes());
            let one = seq![rest@[0]];
            assert(kept@.push(rest@[0]) =~= kept@ + one);
            lemma_encode_concat(kept@, one);
            lemma_encode_one(rest@[0]);
        }
        lemma_cut_text(kept@, rest@, capacity as int);
    }
    kept
}

/// Whether a second byte can follow a first one in the encoding of a scalar of
/// two or more bytes.
spec fn can_follow(first: u8, second: u8) -> bool {
    if first == 0xe0 {
        0xa0 <= second <= 0xbf
    } else if first == 0xed {
        0x80 <= second <= 0x9f
    } else if first == 0xf0 {
        0x90 <= second <= 0xbf
    } else if first == 0xf4 {
        0x80 <= second <= 0x8f
    } else {
        0x80 <= second <= 0xbf
    }
}

/// How many bytes the encoding of a scalar has that starts with this byte; none
/// where no encoding does.
spec fn width_of(first: u8) -> int {
    if first <= 0x7f {
        1
    } else if 0xc2 <= first <= 0xdf {
        2
    } else if 0xe0 <= first <= 0xef {
        3
    } else if 0xf0 <= first <= 0xf4 {
        4
    } else {
        0
    }
}

/// Whether bytes start like the encoding of a scalar, as far as `count` of them tell.
spec fn fits_so_far(bytes: Seq<u8>, count: int) -> bool {
    &&& 1 <= count <= bytes.len()
    &&& count <= width_of(bytes[0])
    &&& (count >= 2 ==> can_follow(bytes[0], bytes[1]))
    &&& (count >= 3 ==> is_continuation_byte(bytes[2]))
    &&& (count >= 4 ==> is_continuation_byte(bytes[3]))
}

proof fn lemma_scalar_table(bytes: Seq<u8>)
    requires
        bytes.len() > 0,
    ensures
        valid_first_scalar(bytes) <==> fits_so_far(bytes, width_of(bytes[0])),
        valid_first_scalar(bytes) ==> length_of_first_scalar(bytes) == width_of(bytes[0]),
{
    let a = bytes[0];
    if is_leading_byte_width_1(a) {
        assert(a <= 0x7f ==> (a & 0x7f) as u32 <= 0x7f) by (bit_vector);
    } else if is_leading_byte_width_2(a) {
        if bytes.len() >= 2 && is_continuation_byte(bytes[1]) {
            let b = bytes[1];
            let point = (((a & 0x1f) as u32) << 6) | ((b & 0x3f) as u32);
            assert(point == codepoint_width_2(a, b));
            assert(0x80 <= point <==> a >= 0xc2) by (bit_vector)
                requires
                    point == (((a & 0x1f) as u32) << 6) | ((b & 0x3f) as u32),
                    0xc0 <= a <= 0xdf,
                    0x80 <= b <= 0xbf,
            ;
            assert(point <= 0x7ff) by (bit_vector)
                requires
                    point == (((a & 0x1f) as u32) << 6) | ((b & 0x3f) as u32),
            ;
        }
    } else if is_leading_byte_width_3(a) {
        if bytes.len() >= 3 && is_continuation_byte(bytes[1]) && is_continuation_byte(bytes[2]) {
            let b = bytes[1];
            let c = bytes[2];
            let point = (((a & 0x0f) as u32) << 12) | (((b & 0x3f) as u32) << 6) | ((c
                & 0x3f) as u32);
            assert(point == codepoint_width_3(a, b, c));
            assert((0x800 <= point && !(0xd800 <= point && point <= 0xdfff)) <==> !(a == 0xe0 && b
                < 0xa0) && !(a == 0xed && b > 0x9f)) by (bit_vector)
                requires
                    point == (((a & 0x0f) as u32) << 12) | (((b & 0x3f) as u32) << 6) | ((c
                        & 0x3f) as u32),
                    0xe0 <= a <= 0xef,
                    0x80 <= b <= 0xbf,
                    0x80 <= c <= 0xbf,
            ;
        }
    } else if is_leading_byte_width_4(a) {
        if bytes.len() >= 4 && is_continuation_byte(bytes[1]) && is_continuation_byte(bytes[2])
            && is_continuation_byte(bytes[3]) {
            let b = bytes[1];
            let c = bytes[2];
            let d = bytes[3];
            let point = (((a & 0x07) as u32) << 18) | (((b & 0x3f) as u32) << 12) | (((c
                & 0x3f) as u32) << 6) | ((d & 0x3f) as u32);
            assert(point == codepoint_width_4(a, b, c, d));
            assert((0x10000 <= point && point <= 0x10ffff) <==> a <= 0xf4 && !(a == 0xf0 && b
                < 0x90) && !(a == 0xf4 && b > 0x8f)) by (bit_vector)
                requires
                    point == (((a & 0x07) as u32) << 18) | (((b & 0x3f) as u32) << 12) | (((c
                        & 0x3f) as u32) << 6) | ((d & 0x3f) as u32),
                    0xf0 <= a <= 0xf7,
                    0x80 <= b <= 0xbf,
                    0x80 <= c <= 0xbf,
                    0x80 <= d <= 0xbf,
            ;
        }
    }
}

/// A first scalar is as it would be alone.
proof fn lemma_first_alone(bytes: Seq<u8>)
    requires
        valid_first_scalar(bytes),
    ensures
        encode_utf8(seq![decode_first_scalar(bytes) as char]) == take_first_scalar(bytes),
{
    let alone = take_first_scalar(bytes);
    let c = decode_first_scalar(bytes) as char;
    assert(valid_first_scalar(alone) && decode_first_scalar(alone) == decode_first_scalar(bytes));
    assert(pop_first_scalar(alone) =~= Seq::<u8>::empty());
    reveal_with_fuel(valid_utf8, 2);
    reveal_with_fuel(decode_utf8, 2);
    assert(decode_utf8(alone) =~= seq![c]);
    decode_utf8_encode_utf8(alone);
}

/// Which bytes begin a scalar.
proof fn lemma_begins_scalar(bytes: Seq<u8>, count: int)
    requires
        2 <= count <= 3,
        count <= bytes.len(),
    ensures
        begins_scalar(bytes.take(count)) <==> fits_so_far(bytes, count),
{
    let start = bytes.take(count);
    if fits_so_far(bytes, count) {
        let missing = width_of(bytes[0]) - count;
        let full = start + Seq::new(missing as nat, |i: int| 0x80u8);
        lemma_scalar_table(full);
        assert(valid_first_scalar(full));
        lemma_first_alone(full);
        let c = decode_first_scalar(full) as char;
        assert(take_first_scalar(full) =~= full);
        assert(encode_utf8(seq![c]).take(count) =~= start);
    }
    if begins_scalar(start) {
        let c = choose|c: char|
            start.len() <= (#[trigger] encode_utf8(seq![c])).len() && encode_utf8(seq![c]).take(
                start.len() as int,
            ) == start;
        let full = encode_utf8(seq![c]);
        encode_utf8_first_scalar(seq![c]);
        lemma_encode_one(c);
        lemma_scalar_table(full);
        assert forall|i: int| 0 <= i < count implies bytes[i] == full[i] by {
            assert(start[i] == full.take(count)[i]);
        }
    }
}

fn scalar_width(first: u8) -> (width: usize)
    ensures
        width == width_of(first),
{
    if first <= 0x7f {
        1
    } else if first >= 0xc2 && first <= 0xdf {
        2
    } else if first >= 0xe0 && first <= 0xef {
        3
    } else if first >= 0xf0 && first <= 0xf4 {
        4
    } else {
        0
    }
}

/// Whether `byte` can stand at `index` in the encoding that starts with `first`.
fn continues(first: u8, index: usize, byte: u8) -> (fits: bool)
    requires
        1 <= index <= 3,
    ensures
        fits == (if index == 1 {
            can_follow(first, byte)
        } else {
            is_continuation_byte(byte)
        }),
{
    if index == 1 && first == 0xe0 {
        byte >= 0xa0 && byte <= 0xbf
    } else if index == 1 && first == 0xed {
        byte >= 0x80 && byte <= 0x9f
    } else if index == 1 && first == 0xf0 {
        byte >= 0x90 && byte <= 0xbf
    } else if index == 1 && first == 0xf4 {
        byte >= 0x80 && byte <= 0x8f
    } else {
        byte >= 0x80 && byte <= 0xbf
    }
}

/// How the bytes from `at` on start: how many of them make up the scalar or
/// stand for one replacement character, and whether they are a scalar.
fn next_unit(source: &[u8], at: usize) -> (unit: (usize, bool))
    requires
        at < source@.len(),
    ensures
        ({
            let rest = source@.skip(at as int);
            &&& unit.1 == valid_first_scalar(rest)
            &&& unit.0 == (if valid_first_scalar(rest) {
                length_of_first_scalar(rest)
            } else {
                broken_length(rest)
            })
            &&& 0 < unit.0 <= rest.len()
        }),
{
    let ghost rest = source@.skip(at as int);
    let first: u8 = source[at];
    let width: usize = scalar_width(first);
    let mut count: usize = 1;
    while count < width && count < source.len() - at && continues(
        first,
        count,
        source[at + count],
    )
        invariant
            at < source@.len(),
            rest == source@.skip(at as int),
            first == rest[0],
            width == width_of(first),
            1 <= count <= rest.len(),
            width > 0 ==> fits_so_far(rest, count as int),
            width == 0 ==> count == 1,
        decreases width - count,
    {
        count += 1;
    }
    proof {
        lemma_scalar_table(rest);
        if rest.len() >= 2 {
            lemma_begins_scalar(rest, 2);
        }
        if rest.len() >= 3 {
            lemma_begins_scalar(rest, 3);
        }
    }
    (count, count == width)
}

/// Decodes bytes, with replacement characters where they are not UTF-8, up to
/// the first character for which `capacity` bytes leave no room.
pub fn write_lossy_prefix(source: &[u8], capacity: usize) -> (text: String)
    ensures
        text@ == cut_text(lossy(source@), capacity as int),
{
    let mut output: Vec<u8> = Vec::new();
    let ghost mut done = Seq::<char>::empty();
    let mut at: usize = 0;
    let mut full = false;
    proof {
        assert(source@.skip(0) =~= source@);
        assert(done + lossy(source@) =~= lossy(source@));
        assert(encode_utf8(done) =~= Seq::<u8>::empty());
    }
    while at < source.len() && !full
        invariant
            0 <= at <= source@.len(),
            output@ == encode_utf8(done),
            output@.len() <= capacity,
            lossy(source@) == done + lossy(source@.skip(at as int)),
            full ==> lossy(source@.skip(at as int)).len() > 0 && encode_utf8(
                done.push(lossy(source@.skip(at as int))[0]),
            ).len() > capacity,
        decreases source@.len() - at, (if full { 0int } else { 1int }),
    {
        let ghost rest = source@.skip(at as int);
        let (count, valid) = next_unit(source, at);
        let ghost c = lossy(rest)[0];
        let size: usize = if valid {
            count
        } else {
            3
        };
        proof {
            if valid {
                lemma_first_alone(rest);
                assert(source@.skip(at + count) =~= pop_first_scalar(rest));
            } else {
                lemma_replacement();
                assert(source@.skip(at + count) =~= rest.skip(broken_length(rest)));
            }
            assert(lossy(rest) =~= seq![c] + lossy(source@.skip(at + count)));
            assert(encode_utf8(seq![c]).len() == size);
            assert(done.push(c) =~= done + seq![c]);
            lemma_encode_concat(done, seq![c]);
        }
        if size > capacity - output.len() {
            full = true;
        } else {
            let ghost before = output@;
            if valid {
                let mut i: usize = 0;
                while i < count
                    invariant
                        0 <= i <= count,
                        at + count <= source.len(),
                        output@ == before + source@.subrange(at as int, at + i),
                    decreases count - i,
                {
                    output.push(source[at + i]);
                    i += 1;
                    assert(source@.subrange(at as int, at + i) =~= source@.subrange(
                        at as int,
                        at + i - 1,
                    ).push(source@[at + i - 1]));
                }
                assert(source@.subrange(at as int, at + count) =~= take_first_scalar(rest));
            } else {
                output.push(0xef);
                output.push(0xbf);
                output.push(0xbd);
            }
            assert(output@ =~= before + encode_utf8(seq![c]));
            proof {
                assert(done + (seq![c] + lossy(source@.skip(at + count))) =~= done.push(c) + lossy(
                    source@.skip(at + count),
                ));
                done = done.push(c);
            }
            at += count;
        }
    }
    proof {
        lemma_cut_text(done, lossy(source@.skip(at as int)), capacity as int);
        encode_utf8_valid_utf8(done);
        encode_utf8_decode_utf8(done);
    }
    match text_of_bytes(output.as_slice()) {
        Some(text) => text.to_owned(),
        None => String::new(),
    }
}

proof fn lemma_replacement()
    ensures
        encode_utf8(seq!['\u{fffd}']) == seq![0xefu8, 0xbf, 0xbd],
{
    let bytes = seq![0xefu8, 0xbf, 0xbd];
    lemma_scalar_table(bytes);
    assert((((0xefu8 & 0x0f) as u32) << 12) | (((0xbfu8 & 0x3f) as u32) << 6) | ((0xbdu8
        & 0x3f) as u32) == 0xfffdu32) by (bit_vector);
    lemma_first_alone(bytes);
    assert(take_first_scalar(bytes) =~= bytes);
}

/// What is kept of a text fits, is a beginning of it, and is all of it where
/// all of it fits.
pub proof fn law_kept_text_fits(text: Seq<char>, capacity: int)
    requires
        0 <= capacity,
    ensures
        encode_utf8(cut_text(text, capacity)).len() <= capacity,
        cut_text(text, capacity).is_prefix_of(text),
        encode_utf8(text).len() <= capacity ==> cut_text(text, capacity) == text,
    decreases text.len(),
{
    if text.len() > 0 && encode_utf8(text).len() > capacity {
        law_kept_text_fits(text.drop_last(), capacity);
    }
}

/// An ASCII white space character.
pub open spec fn ascii_space(c: char) -> bool {
    c == ' ' || c == '\t' || c == '\n' || c == '\u{c}' || c == '\r'
}

/// A text without its ASCII white space.
pub open spec fn without_spaces(text: Seq<char>) -> Seq<char>
    decreases text.len(),
{
    if text.len() == 0 {
        Seq::empty()
    } else if ascii_space(text.last()) {
        without_spaces(text.drop_last())
    } else {
        without_spaces(text.drop_last()).push(text.last())
    }
}

/// Removes the ASCII white space of a text.
pub fn write_stripped(text: &str) -> (stripped: String)
    ensures
        stripped@ == without_spaces(text@),
{
    let mut stripped = String::new();
    for c in iter: text.chars()
        invariant
            iter.seq() == text@,
            stripped@ == without_spaces(text@.take(iter.index() as int)),
    {
        assert(text@.take(iter.index() + 1).drop_last() =~= text@.take(iter.index() as int));
        if !(c == ' ' || c == '\t' || c == '\n' || c == '\u{c}' || c == '\r') {
            push_char(&mut stripped, c);
        }
    }
    assert(text@.take(text@.len() as int) =~= text@);
    stripped
}

/// What is kept of a request for its log lines: borrowed fields, which outlive
/// the parsed head that they come from.
pub struct RequestLog<'a> {
    method: &'a str,
    target: &'a str,
    request_id: Option<&'a [u8]>,
    forwarded_for: Option<&'a [u8]>,
    peer: &'a str,
    peer_ip: &'a str,
    request_len: usize,
}

/// The fields of a [`RequestLog`].
#[verifier::ext_equal]
pub struct RequestLogModel {
    pub method: Seq<char>,
    pub target: Seq<char>,
    pub request_id: Option<Seq<u8>>,
    pub forwarded_for: Option<Seq<u8>>,
    pub peer: Seq<char>,
    pub peer_ip: Seq<char>,
    pub request_len: usize,
}

impl<'a> View for RequestLog<'a> {
    type V = RequestLogModel;

    closed spec fn view(&self) -> RequestLogModel {
        RequestLogModel {
            method: self.method@,
            target: self.target@,
            request_id: bytes_of(self.request_id),
            forwarded_for: bytes_of(self.forwarded_for),
            peer: self.peer@,
            peer_ip: self.peer_ip@,
            request_len: self.request_len,
        }
    }
}

/// What is logged of a head: without an API line, neither its identifier nor
/// its addresses are looked for.
pub open spec fn logged_request(
    head: ParsedHead<'_>,
    peer: Seq<char>,
    peer_ip: Seq<char>,
    request_len: usize,
    api_log: bool,
) -> RequestLogModel {
    RequestLogModel {
        method: head.method->Some_0@,
        target: head.path->Some_0@,
        request_id: if api_log {
            header_value(head.headers@, "x-request-id".spec_bytes())
        } else {
            None
        },
        forwarded_for: if api_log {
            header_value(head.headers@, "x-forwarded-for".spec_bytes())
        } else {
            None
        },
        peer,
        peer_ip,
        request_len,
    }
}

impl<'a> RequestLog<'a> {
    pub fn new(
        head: &ParsedHead<'a>,
        peer: &'a str,
        peer_ip: &'a str,
        request_len: usize,
        api_log: bool,
    ) -> (log: Self)
        requires
            head.method is Some,
            head.path is Some,
        ensures
            log@ == logged_request(*head, peer@, peer_ip@, request_len, api_log),
    {
        let request_id = if api_log {
            find_header(head.headers.as_slice(), "x-request-id")
        } else {
            None
        };
        let forwarded_for = if api_log {
            find_header(head.headers.as_slice(), "x-forwarded-for")
        } else {
            None
        };
        RequestLog {
            method: head.method.unwrap(),
            target: head.path.unwrap(),
            request_id,
            forwarded_for,
            peer,
            peer_ip,
            request_len,
        }
    }

    pub fn method(&self) -> (method: &'a str)
        ensures
            method@ == cut_text(self@.method, METHOD_BYTES as int),
    {
        prefix(self.method, METHOD_BYTES)
    }

    pub fn target(&self) -> (target: &'a str)
        ensures
            target@ == cut_text(self@.target, TARGET_BYTES as int),
    {
        prefix(self.target, TARGET_BYTES)
    }

    pub fn request_id(&self) -> (id: RequestId<'a>)
        ensures
            bytes_of(id.0) == self@.request_id,
    {
        RequestId(self.request_id)
    }

    pub fn client_ip(&self) -> (ip: ClientIp<'a>)
        ensures
            bytes_of(ip.forwarded_for) == self@.forwarded_for,
            ip.peer@ == self@.peer_ip,
    {
        ClientIp { forwarded_for: self.forwarded_for, peer: self.peer_ip }
    }

    pub fn peer(&self) -> (peer: &'a str)
        ensures
            peer@ == self@.peer,
    {
        self.peer
    }

    pub fn request_len(&self) -> (length: usize)
        ensures
            length == self@.request_len,
    {
        self.request_len
    }
}

/// `ReaderView::peek_byte`: the byte at an offset, if the view has it.
pub assume_specification<'a>[ ReaderView::<'a>::peek_byte ](
    view: &ReaderView<'a>,
    offset: usize,
) -> (byte: Option<u8>)
    ensures
        byte == (if offset < view_bytes(*view).len() {
            Some(view_bytes(*view)[offset as int])
        } else {
            None
        }),
;

/// The identifier that a request came with.
pub struct RequestId<'a>(pub Option<&'a [u8]>);

/// How an identifier is logged.
pub open spec fn request_id_text(value: Option<Seq<u8>>) -> Seq<char> {
    match value {
        None => "-"@,
        Some(bytes) => match utf8_text(bytes) {
            None => "<invalid-request-id>"@,
            Some(text) => if without_spaces(text).len() == 0 {
                "-"@
            } else {
                without_spaces(text)
            },
        },
    }
}

/// The bytes of a slice that may be missing.
pub open spec fn bytes_of(value: Option<&[u8]>) -> Option<Seq<u8>> {
    match value {
        Some(bytes) => Some(bytes@),
        None => None,
    }
}

impl<'a> RequestId<'a> {
    pub fn to_string(&self) -> (text: String)
        ensures
            text@ == request_id_text(bytes_of(self.0)),
    {
        match self.0 {
            None => "-".to_owned(),
            Some(bytes) => match text_of_bytes(bytes) {
                None => "<invalid-request-id>".to_owned(),
                Some(text) => {
                    let stripped = write_stripped(text);
                    if stripped.as_str().is_empty() {
                        "-".to_owned()
                    } else {
                        stripped
                    }
                },
            },
        }
    }
}

/// The addresses that a request came through, or that of its peer.
pub struct ClientIp<'a> {
    pub forwarded_for: Option<&'a [u8]>,
    pub peer: &'a str,
}

/// Whether a list of addresses holds more than separators.
pub open spec fn names_a_hop(text: Seq<char>) -> bool {
    exists|i: int| 0 <= i < text.len() && !ascii_space(#[trigger] text[i]) && text[i] != ','
}

/// How the addresses are logged.
pub open spec fn client_ip_text(forwarded_for: Option<Seq<u8>>, peer: Seq<char>) -> Seq<char> {
    match forwarded_for {
        None => peer,
        Some(bytes) => match utf8_text(bytes) {
            None => "<invalid-client-ip>"@,
            Some(text) => if names_a_hop(text) {
                without_spaces(text)
            } else {
                peer
            },
        },
    }
}

fn has_hop(text: &str) -> (found: bool)
    ensures
        found == names_a_hop(text@),
{
    let mut found = false;
    for c in iter: text.chars()
        invariant
            iter.seq() == text@,
            found ==> names_a_hop(text@),
            !found ==> forall|i: int|
                0 <= i < iter.index() ==> ascii_space(#[trigger] text@[i]) || text@[i] == ',',
    {
        if !(c == ' ' || c == '\t' || c == '\n' || c == '\u{c}' || c == '\r') && c != ',' {
            assert(text@[iter.index() as int] == c);
            found = true;
        }
    }
    found
}

impl<'a> ClientIp<'a> {
    pub fn to_string(&self) -> (text: String)
        ensures
            text@ == client_ip_text(bytes_of(self.forwarded_for), self.peer@),
    {
        if let Some(bytes) = self.forwarded_for {
            match text_of_bytes(bytes) {
                None => {
                    return "<invalid-client-ip>".to_owned();
                },
                Some(text) => {
                    if has_hop(text) {
                        return write_stripped(text);
                    }
                },
            }
        }
        self.peer.to_owned()
    }
}

/// The beginning of a body as text, which is not consumed.
pub struct BodyExcerpt<'a>(pub Option<ReaderView<'a>>);

/// How the beginning of a body is logged: what its first bytes decode to, as
/// far as there is room.
pub open spec fn excerpt_text(body: Seq<u8>) -> Seq<char> {
    let source = if body.len() <= EXCERPT_BYTES {
        body
    } else {
        body.take(EXCERPT_BYTES as int)
    };
    cut_text(lossy(source), EXCERPT_BYTES as int)
}

impl<'a> BodyExcerpt<'a> {
    pub fn to_string(&self) -> (text: String)
        ensures
            text@ == (match self.0 {
                Some(view) => excerpt_text(view_bytes(view)),
                None => Seq::empty(),
            }),
    {
        match self.0 {
            None => String::new(),
            Some(view) => {
                let length: usize = view.len();
                let limit: usize = if length < EXCERPT_BYTES {
                    length
                } else {
                    EXCERPT_BYTES
                };
                let mut source: Vec<u8> = Vec::new();
                let mut i: usize = 0;
                while i < limit
                    invariant
                        0 <= i <= limit <= view_bytes(view).len(),
                        source@ == view_bytes(view).take(i as int),
                    decreases limit - i,
                {
                    if let Some(byte) = view.peek_byte(i) {
                        source.push(byte);
                    }
                    i += 1;
                    assert(source@ =~= view_bytes(view).take(i as int));
                }
                assert(length <= EXCERPT_BYTES ==> source@ =~= view_bytes(view));
                write_lossy_prefix(source.as_slice(), EXCERPT_BYTES)
            },
        }
    }
}

/// A text without spaces has none.
proof fn lemma_without_spaces(text: Seq<char>)
    ensures
        forall|i: int|
            0 <= i < without_spaces(text).len() ==> !ascii_space(
                #[trigger] without_spaces(text)[i],
            ),
    decreases text.len(),
{
    if text.len() > 0 {
        lemma_without_spaces(text.drop_last());
        let before = without_spaces(text.drop_last());
        let all = without_spaces(text);
        assert forall|i: int| 0 <= i < all.len() implies !ascii_space(#[trigger] all[i]) by {
            if i < before.len() {
                assert(all[i] == before[i]);
            }
        }
    }
}

/// Neither an identifier nor the addresses of a request can add a column or a
/// line to the log, where the peer's own address has no white space.
pub proof fn law_logged_fields_are_single_words(
    request_id: Option<Seq<u8>>,
    forwarded_for: Option<Seq<u8>>,
    peer: Seq<char>,
)
    requires
        forall|i: int| 0 <= i < peer.len() ==> !ascii_space(#[trigger] peer[i]),
        peer.len() > 0,
    ensures
        forall|i: int|
            0 <= i < request_id_text(request_id).len() ==> !ascii_space(
                #[trigger] request_id_text(request_id)[i],
            ),
        request_id_text(request_id).len() > 0,
        forall|i: int|
            0 <= i < client_ip_text(forwarded_for, peer).len() ==> !ascii_space(
                #[trigger] client_ip_text(forwarded_for, peer)[i],
            ),
        client_ip_text(forwarded_for, peer).len() > 0,
{
    reveal_strlit("-");
    reveal_strlit("<invalid-request-id>");
    reveal_strlit("<invalid-client-ip>");
    if let Some(bytes) = request_id {
        if let Some(text) = utf8_text(bytes) {
            lemma_without_spaces(text);
        }
    }
    if let Some(bytes) = forwarded_for {
        if let Some(text) = utf8_text(bytes) {
            lemma_without_spaces(text);
            if names_a_hop(text) {
                lemma_hop_kept(text);
            }
        }
    }
}

proof fn lemma_hop_kept(text: Seq<char>)
    requires
        names_a_hop(text),
    ensures
        without_spaces(text).len() > 0,
    decreases text.len(),
{
    let i = choose|i: int|
        0 <= i < text.len() && !ascii_space(#[trigger] text[i]) && text[i] != ',';
    if ascii_space(text.last()) {
        assert(text.drop_last()[i] == text[i]);
        lemma_hop_kept(text.drop_last());
    }
}

} // verus!

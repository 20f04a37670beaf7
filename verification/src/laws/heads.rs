//! Laws of response heads: header blocks, status lines and framing.
use vstd::prelude::*;
use vstd::string::StringSliceAdditionalSpecFns;
use vstd::utf8::*;

#[allow(unused_imports)]
use crate::headers::has_line;
#[allow(unused_imports)]
use crate::laws::texts::among;
use crate::response::HeaderBlockError;
#[allow(unused_imports)]
use crate::response::{
    block_error, encoded_line, encoded_lines, first_crlf, is_name, lemma_first_crlf,
    lemma_first_crlf_unique, line_error, proper_line, reserved_name, token_byte, BodyModel,
    ResponseModel,
};
#[allow(unused_imports)]
use crate::server::write::{
    connection_line, crlf, framing, head_line, phrase, response_head, status_line, unbroken_text,
};
#[allow(unused_imports)]
use crate::text::{
    decimal, first_of, lemma_ascii_in_encoding, lemma_first_of, lemma_first_of_unique,
    same_ignoring_case,
};

verus! {

/// Lines, each with a carriage return and a line feed behind it.
pub open spec fn written_lines(lines: Seq<Seq<u8>>) -> Seq<u8>
    decreases lines.len(),
{
    if lines.len() == 0 {
        Seq::empty()
    } else {
        written_lines(lines.drop_last()) + lines.last() + seq![13u8, 10u8]
    }
}

/// Whether a line has something in it and is not broken.
pub open spec fn is_one_line(line: Seq<u8>) -> bool {
    line.len() > 0 && !line.contains(13) && !line.contains(10)
}

/// Whether a line is a header of this name, in any case.
pub open spec fn line_is_named(line: Seq<u8>, name: &str) -> bool {
    let length = name.spec_bytes().len() as int;
    &&& length < line.len()
    &&& same_ignoring_case(line.take(length), name.spec_bytes())
    &&& line[length] == 58
}

/// Whether a name is made of the letters, digits and signs that names are made
/// of, at least one of them.
pub open spec fn is_token(name: Seq<u8>) -> bool {
    name.len() > 0 && forall|i: int|
        0 <= i < name.len() ==> among(
            #[trigger] name[i],
            "!#$%&'*+-.^_`|~0123456789ABCDEFGHIJKLMNOPQRSTUVWXYZabcdefghijklmnopqrstuvwxyz"@,
        )
}

/// A name is made of tokens' bytes and of no others.
pub proof fn law_names_are_tokens(name: Seq<u8>)
    ensures
        is_name(name) <==> is_token(name),
{
    reveal_strlit(
        "!#$%&'*+-.^_`|~0123456789ABCDEFGHIJKLMNOPQRSTUVWXYZabcdefghijklmnopqrstuvwxyz",
    );
    let all = "!#$%&'*+-.^_`|~0123456789ABCDEFGHIJKLMNOPQRSTUVWXYZabcdefghijklmnopqrstuvwxyz"@;
    assert forall|byte: u8| #[trigger] token_byte(byte) == among(byte, all) by {
        if token_byte(byte) {
            let k: int = if byte == 33 {
                0
            } else if 35 <= byte <= 39 {
                byte - 34
            } else if byte == 42 {
                6
            } else if byte == 43 {
                7
            } else if byte == 45 {
                8
            } else if byte == 46 {
                9
            } else if 94 <= byte <= 96 {
                byte - 84
            } else if byte == 124 {
                13
            } else if byte == 126 {
                14
            } else if 48 <= byte <= 57 {
                byte - 33
            } else if 65 <= byte <= 90 {
                byte - 40
            } else {
                byte - 46
            };
            assert(all[k] == byte as char);
        }
    }
    if is_name(name) {
        assert forall|i: int| 0 <= i < name.len() implies among(#[trigger] name[i], all) by {
            assert(token_byte(name[i]));
        }
    }
    if is_token(name) {
        assert forall|i: int| 0 <= i < name.len() implies token_byte(#[trigger] name[i]) by {
            assert(among(name[i], all));
        }
    }
}

/// The server alone sets how a connection and a body are framed.
pub proof fn law_framing_headers_are_reserved(name: Seq<u8>)
    ensures
        reserved_name(name) <==> same_ignoring_case(name, "connection".spec_bytes())
            || same_ignoring_case(name, "content-length".spec_bytes()) || same_ignoring_case(
            name,
            "transfer-encoding".spec_bytes(),
        ),
{
}

/// A line of a block is refused for what is first wrong with it: it is empty,
/// it is broken, it does not start with a name and a colon, or the name is one
/// that the server sets. Any other line is accepted, whatever its value is.
pub proof fn law_lines_are_judged_by_name_and_value(name: Seq<u8>, value: Seq<u8>, rest: Seq<u8>)
    requires
        !name.contains(58),
        !name.contains(13),
        !name.contains(10),
        !value.contains(13),
        !value.contains(10),
    ensures
        block_error(name + seq![58u8] + value + seq![13u8, 10u8] + rest) == (if !is_token(name) {
            Some(HeaderBlockError::InvalidName)
        } else if same_ignoring_case(name, "connection".spec_bytes()) || same_ignoring_case(
            name,
            "content-length".spec_bytes(),
        ) || same_ignoring_case(name, "transfer-encoding".spec_bytes()) {
            Some(HeaderBlockError::ReservedName)
        } else {
            block_error(rest)
        }),
{
    let line = name + seq![58u8] + value;
    let block = line + seq![13u8, 10u8] + rest;
    law_names_are_tokens(name);
    assert forall|i: int| 0 <= i < line.len() implies line[i] != 13 && line[i] != 10 by {
        if i < name.len() {
            assert(name.contains(line[i]));
        } else if i > name.len() {
            assert(value.contains(value[i - name.len() - 1]));
        }
    }
    assert forall|i: int| 0 <= i < line.len() implies !(#[trigger] block[i] == 13 && block[i + 1]
        == 10) by {
        assert(block[i] == line[i]);
    }
    lemma_first_crlf_unique(block, line.len() as int);
    assert(block.take(line.len() as int) =~= line);
    assert(block.skip(line.len() as int + 2) =~= rest);
    assert forall|i: int| 0 <= i < name.len() implies line[i] != 58 by {
        assert(name.contains(line[i]));
    }
    lemma_first_of_unique(line, 58, name.len() as int);
    assert(line.take(name.len() as int) =~= name);
    assert(block == name + seq![58u8] + value + seq![13u8, 10u8] + rest);
}

/// A block without a header's shape is refused: a blank line, a line without a
/// colon, a line that a single carriage return or line feed breaks, and a last
/// line without its ending.
pub proof fn law_shapeless_lines_are_refused(line: Seq<u8>, rest: Seq<u8>)
    requires
        forall|i: int|
            0 <= i < line.len() - 1 ==> !(#[trigger] line[i] == 13 && line[i + 1] == 10),
        line.len() > 0 ==> line.last() != 13,
    ensures
        line.len() == 0 ==> block_error(line + seq![13u8, 10u8] + rest) == Some(
            HeaderBlockError::EmptyLine,
        ),
        line.contains(13) || line.contains(10) ==> block_error(line + seq![13u8, 10u8] + rest)
            == Some(HeaderBlockError::InvalidValue),
        line.len() > 0 && !line.contains(13) && !line.contains(10) && !line.contains(58)
            ==> block_error(line + seq![13u8, 10u8] + rest) == Some(HeaderBlockError::InvalidName),
        line.len() > 0 ==> block_error(line) == Some(HeaderBlockError::MissingLineEnding),
        block_error(Seq::<u8>::empty()) is None,
{
    let block = line + seq![13u8, 10u8] + rest;
    assert forall|i: int| 0 <= i < line.len() implies !(#[trigger] block[i] == 13 && block[i + 1]
        == 10) by {
        assert(block[i] == line[i]);
        if i < line.len() - 1 {
            assert(block[i + 1] == line[i + 1]);
        }
    }
    lemma_first_crlf_unique(block, line.len() as int);
    assert(block.take(line.len() as int) =~= line);
    lemma_first_of(line, 58);
    lemma_first_crlf(line);
    if first_crlf(line) < line.len() {
        assert(line[first_crlf(line)] == 13);
    }
}

/// The lines of an accepted block are headers that the server does not set.
pub proof fn lemma_block_lines(block: Seq<u8>) -> (lines: Seq<Seq<u8>>)
    requires
        block_error(block) is None,
    ensures
        block == written_lines(lines),
        forall|i: int|
            0 <= i < lines.len() ==> is_one_line(#[trigger] lines[i]) && !line_is_named(
                lines[i],
                "connection",
            ) && !line_is_named(lines[i], "content-length") && !line_is_named(
                lines[i],
                "transfer-encoding",
            ),
    decreases block.len(),
{
    if block.len() == 0 {
        assert(block =~= written_lines(Seq::empty()));
        Seq::empty()
    } else {
        lemma_first_crlf(block);
        let end = first_crlf(block);
        let line = block.take(end);
        let rest = lemma_block_lines(block.skip(end + 2));
        assert(line_error(line) is None);
        lemma_line_not_reserved(line);
        let lines = seq![line] + rest;
        lemma_lines_front(line, rest);
        assert(block =~= line + seq![13u8, 10u8] + block.skip(end + 2));
        assert forall|i: int| 0 <= i < lines.len() implies is_one_line(#[trigger] lines[i])
            && !line_is_named(lines[i], "connection") && !line_is_named(
            lines[i],
            "content-length",
        ) && !line_is_named(lines[i], "transfer-encoding") by {
            if i > 0 {
                assert(is_one_line(rest[i - 1]));
            }
        }
        lines
    }
}

pub(crate) proof fn lemma_lines_front(line: Seq<u8>, rest: Seq<Seq<u8>>)
    ensures
        written_lines(seq![line] + rest) == line + seq![13u8, 10u8] + written_lines(rest),
    decreases rest.len(),
{
    let all = seq![line] + rest;
    if rest.len() == 0 {
        assert(all.drop_last() =~= Seq::<Seq<u8>>::empty());
        assert(written_lines(all.drop_last()) =~= Seq::<u8>::empty());
        assert(written_lines(all) =~= line + seq![13u8, 10u8] + written_lines(rest));
    } else {
        lemma_lines_front(line, rest.drop_last());
        assert(all.drop_last() =~= seq![line] + rest.drop_last());
        assert(written_lines(all) =~= line + seq![13u8, 10u8] + written_lines(rest));
    }
}

proof fn lemma_lines_join(left: Seq<Seq<u8>>, right: Seq<Seq<u8>>)
    ensures
        written_lines(left + right) == written_lines(left) + written_lines(right),
    decreases right.len(),
{
    if right.len() == 0 {
        assert(left + right =~= left);
        assert(written_lines(left) + written_lines(right) =~= written_lines(left));
    } else {
        lemma_lines_join(left, right.drop_last());
        assert((left + right).drop_last() =~= left + right.drop_last());
        assert(written_lines(left + right) =~= written_lines(left) + written_lines(right));
    }
}

proof fn lemma_named_by_first_colon(line: Seq<u8>, name: &str)
    requires
        line_is_named(line, name),
        !name.spec_bytes().contains(58),
    ensures
        first_of(line, 58) == name.spec_bytes().len(),
{
    let length = name.spec_bytes().len() as int;
    assert forall|i: int| 0 <= i < length implies line[i] != 58 by {
        assert(crate::text::lower(line.take(length)[i]) == crate::text::lower(name.spec_bytes()[i]));
        assert(name.spec_bytes().contains(name.spec_bytes()[i]));
        if line[i] == 58 {
            assert(crate::text::lower(name.spec_bytes()[i]) == 58);
        }
    }
    lemma_first_of_unique(line, 58, length);
}

pub(crate) proof fn lemma_fixed_names()
    ensures
        !"connection".spec_bytes().contains(58),
        !"content-length".spec_bytes().contains(58),
        !"transfer-encoding".spec_bytes().contains(58),
{
    reveal_strlit("connection");
    reveal_strlit("content-length");
    reveal_strlit("transfer-encoding");
    lemma_ascii_in_encoding("connection"@, ':');
    lemma_ascii_in_encoding("content-length"@, ':');
    lemma_ascii_in_encoding("transfer-encoding"@, ':');
}

proof fn lemma_line_not_reserved(line: Seq<u8>)
    requires
        line_error(line) is None,
    ensures
        is_one_line(line),
        !line_is_named(line, "connection"),
        !line_is_named(line, "content-length"),
        !line_is_named(line, "transfer-encoding"),
{
    lemma_fixed_names();
    let colon = first_of(line, 58);
    if line_is_named(line, "connection") {
        lemma_named_by_first_colon(line, "connection");
    }
    if line_is_named(line, "content-length") {
        lemma_named_by_first_colon(line, "content-length");
    }
    if line_is_named(line, "transfer-encoding") {
        lemma_named_by_first_colon(line, "transfer-encoding");
    }
}

/// The line that says how the body of a response is framed.
pub open spec fn says_length(line: Seq<u8>, length: u64) -> bool {
    line == "Content-Length: ".spec_bytes() + encode_utf8(decimal(length as nat))
}

/// Whether these are the lines of a response's head: a status line, then
/// headers. The application's own come first. Then come the content type, the
/// allowed methods and the challenge where there are some, a line that says how
/// the body is framed where the status permits a body, and one that the
/// connection ends where it does.
pub open spec fn are_head_lines(
    lines: Seq<Seq<u8>>,
    response: ResponseModel,
    reason: Seq<char>,
    close: bool,
) -> bool {
    let bodied = 200 <= response.status && response.status != 204 && response.status != 304;
    let length = match response.body {
        BodyModel::Whole(bytes) => Some(bytes.len() as u64),
        BodyModel::Segmented { reader: _, length } => Some(length),
        BodyModel::Stream(length) => length,
    };
    &&& lines.len() > 0
    &&& lines[0] == "HTTP/1.1 ".spec_bytes() + encode_utf8(decimal(response.status as nat))
        + seq![32u8] + encode_utf8(reason)
    &&& forall|i: int| 0 <= i < lines.len() ==> is_one_line(#[trigger] lines[i])
    &&& forall|i: int|
        1 <= i < lines.len() && line_is_named(#[trigger] lines[i], "content-length") ==> bodied
            && length is Some && says_length(lines[i], length->0)
    &&& bodied && length is Some ==> exists|i: int|
        1 <= i < lines.len() && says_length(#[trigger] lines[i], length->0)
    &&& forall|i: int|
        1 <= i < lines.len() && line_is_named(#[trigger] lines[i], "transfer-encoding") ==> bodied
            && length is None && lines[i] == "Transfer-Encoding: chunked".spec_bytes()
    &&& bodied && length is None ==> exists|i: int|
        1 <= i < lines.len() && #[trigger] lines[i] == "Transfer-Encoding: chunked".spec_bytes()
    &&& forall|i: int|
        1 <= i < lines.len() && line_is_named(#[trigger] lines[i], "connection") ==> close
            && lines[i] == "Connection: close".spec_bytes()
    &&& close ==> exists|i: int|
        1 <= i < lines.len() && #[trigger] lines[i] == "Connection: close".spec_bytes()
    &&& exists|k: int|
        1 <= k <= lines.len() && written_lines(#[trigger] lines.subrange(1, k)) == response.headers
    &&& response.content_type is Some ==> exists|i: int|
        1 <= i < lines.len() && #[trigger] lines[i] == "Content-Type: ".spec_bytes() + encode_utf8(
            response.content_type->0,
        )
    &&& response.allow is Some ==> exists|i: int|
        1 <= i < lines.len() && #[trigger] lines[i] == "Allow: ".spec_bytes() + encode_utf8(
            response.allow->0,
        )
    &&& response.www_authenticate is Some ==> exists|i: int|
        1 <= i < lines.len() && #[trigger] lines[i] == "WWW-Authenticate: ".spec_bytes()
            + encode_utf8(response.www_authenticate->0)
}

/// The lines of a value that may be missing.
spec fn optional_lines(label: Seq<u8>, value: Option<Seq<char>>) -> Seq<Seq<u8>> {
    match value {
        Some(value) => seq![label + encode_utf8(value)],
        None => Seq::empty(),
    }
}

spec fn framing_lines(response: ResponseModel) -> Seq<Seq<u8>> {
    if !response.permits_body() {
        Seq::empty()
    } else {
        match response.body.content_length() {
            Some(length) => seq![
                "Content-Length: ".spec_bytes() + encode_utf8(decimal(length as nat)),
            ],
            None => seq!["Transfer-Encoding: chunked".spec_bytes()],
        }
    }
}

spec fn closing_lines(close: bool) -> Seq<Seq<u8>> {
    if close {
        seq!["Connection: close".spec_bytes()]
    } else {
        Seq::empty()
    }
}

proof fn lemma_single(line: Seq<u8>)
    ensures
        written_lines(seq![line]) == line + seq![13u8, 10u8],
{
    lemma_lines_front(line, Seq::empty());
    assert(seq![line] + Seq::<Seq<u8>>::empty() =~= seq![line]);
    assert(written_lines(Seq::<Seq<u8>>::empty()) =~= Seq::<u8>::empty());
    assert(line + seq![13u8, 10u8] + Seq::<u8>::empty() =~= line + seq![13u8, 10u8]);
}

proof fn lemma_unbroken(text: Seq<char>)
    requires
        !text.contains('\r'),
        !text.contains('\n'),
    ensures
        !encode_utf8(text).contains(13),
        !encode_utf8(text).contains(10),
{
    lemma_ascii_in_encoding(text, '\r');
    lemma_ascii_in_encoding(text, '\n');
}

proof fn lemma_digits_unbroken(value: nat)
    ensures
        !encode_utf8(decimal(value)).contains(13),
        !encode_utf8(decimal(value)).contains(10),
        encode_utf8(decimal(value)).len() > 0,
{
    crate::server::lemma_decimal_bytes(value);
    let bytes = encode_utf8(decimal(value));
    assert forall|i: int| 0 <= i < bytes.len() implies bytes[i] != 13 && bytes[i] != 10 by {
        assert(crate::server::is_digit(bytes[i]));
    }
}

proof fn lemma_joined_line(left: Seq<u8>, right: Seq<u8>)
    requires
        left.len() > 0,
        !left.contains(13),
        !left.contains(10),
        !right.contains(13),
        !right.contains(10),
    ensures
        is_one_line(left + right),
{
    let line = left + right;
    assert forall|i: int| 0 <= i < line.len() implies line[i] != 13 && line[i] != 10 by {
        if i < left.len() {
            assert(left.contains(line[i]));
        } else {
            assert(right.contains(line[i]));
        }
    }
}

/// A fixed label of ASCII characters that is no reserved name.
proof fn lemma_label(label: &str)
    requires
        is_ascii_chars(label@),
        label@.len() > 0,
        !label@.contains('\r'),
        !label@.contains('\n'),
    ensures
        label.spec_bytes().len() == label@.len(),
        !label.spec_bytes().contains(13),
        !label.spec_bytes().contains(10),
        forall|i: int| 0 <= i < label@.len() ==> label.spec_bytes()[i] == #[trigger] label@[i] as u8,
{
    is_ascii_chars_encode_utf8(label@);
    lemma_unbroken(label@);
}

/// Names of the lines that a response adds itself.
proof fn lemma_labels()
    ensures
        is_ascii_chars("Content-Type: "@) && is_ascii_chars("Allow: "@) && is_ascii_chars(
            "WWW-Authenticate: "@,
        ) && is_ascii_chars("Content-Length: "@) && is_ascii_chars("Transfer-Encoding: chunked"@)
            && is_ascii_chars("Connection: close"@) && is_ascii_chars("HTTP/1.1 "@),
{
    reveal_strlit("Content-Type: ");
    reveal_strlit("Allow: ");
    reveal_strlit("WWW-Authenticate: ");
    reveal_strlit("Content-Length: ");
    reveal_strlit("Transfer-Encoding: chunked");
    reveal_strlit("Connection: close");
    reveal_strlit("HTTP/1.1 ");
}

/// A line that starts with this label is named by no other reserved name.
proof fn lemma_label_names(label: &str, line: Seq<u8>, at: int)
    requires
        0 < at < label.spec_bytes().len() <= line.len(),
        label.spec_bytes()[at] == 58,
        forall|i: int| 0 <= i < at ==> label.spec_bytes()[i] != 58,
        line.take(label.spec_bytes().len() as int) == label.spec_bytes(),
    ensures
        line_is_named(line, "connection") ==> at == "connection".spec_bytes().len(),
        line_is_named(line, "content-length") ==> at == "content-length".spec_bytes().len(),
        line_is_named(line, "transfer-encoding") ==> at == "transfer-encoding".spec_bytes().len(),
{
    lemma_fixed_names();
    assert forall|i: int| 0 <= i < label.spec_bytes().len() implies line[i]
        == label.spec_bytes()[i] by {
        assert(line.take(label.spec_bytes().len() as int)[i] == line[i]);
    }
    lemma_first_of_unique(line, 58, at);
    if line_is_named(line, "connection") {
        lemma_named_by_first_colon(line, "connection");
    }
    if line_is_named(line, "content-length") {
        lemma_named_by_first_colon(line, "content-length");
    }
    if line_is_named(line, "transfer-encoding") {
        lemma_named_by_first_colon(line, "transfer-encoding");
    }
}

proof fn lemma_name_lengths()
    ensures
        "connection".spec_bytes().len() == 10,
        "content-length".spec_bytes().len() == 14,
        "transfer-encoding".spec_bytes().len() == 17,
{
    reveal_strlit("connection");
    reveal_strlit("content-length");
    reveal_strlit("transfer-encoding");
    is_ascii_chars_encode_utf8("connection"@);
    is_ascii_chars_encode_utf8("content-length"@);
    is_ascii_chars_encode_utf8("transfer-encoding"@);
}

/// What the lines that a response adds itself are like.
spec fn harmless(lines: Seq<Seq<u8>>) -> bool {
    forall|i: int|
        0 <= i < lines.len() ==> is_one_line(#[trigger] lines[i]) && !line_is_named(
            lines[i],
            "connection",
        ) && !line_is_named(lines[i], "content-length") && !line_is_named(
            lines[i],
            "transfer-encoding",
        )
}

proof fn lemma_optional_lines(label: &str, at: int, value: Option<Seq<char>>)
    requires
        is_ascii_chars(label@),
        !label@.contains('\r'),
        !label@.contains('\n'),
        0 < at < label@.len(),
        label@[at] == ':',
        forall|i: int| 0 <= i < at ==> label@[i] != ':',
        at != 10 && at != 14 && at != 17,
        unbroken_text(value),
    ensures
        harmless(optional_lines(label.spec_bytes(), value)),
        head_line(label.spec_bytes(), value) == written_lines(
            optional_lines(label.spec_bytes(), value),
        ),
{
    lemma_label(label);
    lemma_name_lengths();
    if let Some(text) = value {
        lemma_unbroken(text);
        let line = label.spec_bytes() + encode_utf8(text);
        lemma_joined_line(label.spec_bytes(), encode_utf8(text));
        assert(line.take(label.spec_bytes().len() as int) =~= label.spec_bytes());
        assert forall|i: int| 0 <= i < at implies label.spec_bytes()[i] != 58 by {
            assert(label@[i] != ':');
            assert(label.spec_bytes()[i] == label@[i] as u8);
            assert((label@[i] as u32) < 128);
        }
        assert(label.spec_bytes()[at] == label@[at] as u8);
        lemma_label_names(label, line, at);
        lemma_single(line);
    } else {
        assert(head_line(label.spec_bytes(), value) =~= written_lines(
            optional_lines(label.spec_bytes(), value),
        ));
    }
}

/// The head of a response is its status line and its headers, with a blank line
/// behind them. The declared length of a body stands in it as `Content-Length`;
/// a body without one is announced as chunked; nothing else says how the body
/// is framed, and nothing at all where the status permits no body.
#[verifier::rlimit(60)]
pub proof fn law_heads_announce_how_bodies_are_framed(
    response: ResponseModel,
    reason: Seq<char>,
    close: bool,
)
    requires
        block_error(response.headers) is None,
        unbroken_text(Some(reason)),
        unbroken_text(response.content_type),
        unbroken_text(response.allow),
        unbroken_text(response.www_authenticate),
    ensures
        exists|lines: Seq<Seq<u8>>| #[trigger]
            are_head_lines(lines, response, reason, close) && response_head(response, reason, close)
                == written_lines(lines) + seq![13u8, 10u8],
{
    lemma_labels();
    lemma_name_lengths();
    reveal_strlit("Content-Type: ");
    reveal_strlit("Allow: ");
    reveal_strlit("WWW-Authenticate: ");
    reveal_strlit(" ");
    is_ascii_chars_encode_utf8(" "@);
    assert(" ".spec_bytes() =~= seq![32u8]);
    let digits = encode_utf8(decimal(response.status as nat));
    lemma_digits_unbroken(response.status as nat);
    lemma_unbroken(reason);
    assert("HTTP/1.1 ".spec_bytes().len() > 0 && !"HTTP/1.1 ".spec_bytes().contains(13)
        && !"HTTP/1.1 ".spec_bytes().contains(10)) by {
        reveal_strlit("HTTP/1.1 ");
        lemma_label("HTTP/1.1 ");
    }
    let first = "HTTP/1.1 ".spec_bytes() + digits + seq![32u8] + encode_utf8(reason);
    lemma_joined_line("HTTP/1.1 ".spec_bytes(), digits);
    lemma_joined_line("HTTP/1.1 ".spec_bytes() + digits, seq![32u8]);
    lemma_joined_line("HTTP/1.1 ".spec_bytes() + digits + seq![32u8], encode_utf8(reason));
    lemma_single(first);
    assert(status_line(response.status, reason) =~= written_lines(seq![first]));
    let own = lemma_block_lines(response.headers);
    let types = optional_lines("Content-Type: ".spec_bytes(), response.content_type);
    let allows = optional_lines("Allow: ".spec_bytes(), response.allow);
    let challenges = optional_lines("WWW-Authenticate: ".spec_bytes(), response.www_authenticate);
    lemma_optional_lines("Content-Type: ", 12, response.content_type);
    lemma_optional_lines("Allow: ", 5, response.allow);
    lemma_optional_lines("WWW-Authenticate: ", 16, response.www_authenticate);
    let frames = framing_lines(response);
    lemma_framing_lines(response);
    let ends = closing_lines(close);
    lemma_closing_lines(close);
    let a = seq![first] + own;
    let b = a + types;
    let c = b + allows;
    let d = c + challenges;
    let e = d + frames;
    let lines = e + ends;
    lemma_lines_join(seq![first], own);
    lemma_lines_join(a, types);
    lemma_lines_join(b, allows);
    lemma_lines_join(c, challenges);
    lemma_lines_join(d, frames);
    lemma_lines_join(e, ends);
    assert(response_head(response, reason, close) =~= written_lines(lines) + seq![13u8, 10u8]);
    assert(harmless(own));
    assert(lines[0] == first);
    let n = d.len() as int;
    assert forall|i: int| 1 <= i < n implies is_one_line(#[trigger] lines[i]) && !line_is_named(
        lines[i],
        "connection",
    ) && !line_is_named(lines[i], "content-length") && !line_is_named(
        lines[i],
        "transfer-encoding",
    ) by {
        let i1 = i - 1;
        let i2 = i1 - own.len();
        let i3 = i2 - types.len();
        let i4 = i3 - allows.len();
        if i1 < own.len() {
            assert(lines[i] == own[i1]);
        } else if i2 < types.len() {
            assert(lines[i] == types[i2]);
        } else if i3 < allows.len() {
            assert(lines[i] == allows[i3]);
        } else {
            assert(lines[i] == challenges[i4]);
        }
    }
    assert forall|i: int| n <= i < n + frames.len() implies lines[i] == frames[i - n] by {}
    assert forall|i: int| n + frames.len() <= i < lines.len() implies lines[i] == ends[i - n
        - frames.len()] by {}
    if frames.len() > 0 {
        assert(lines[n] == frames[0]);
    }
    if ends.len() > 0 {
        assert(lines[n + frames.len()] == ends[0]);
    }
    let at: int = 1 + own.len() as int;
    assert(lines.subrange(1, at) =~= own);
    if types.len() > 0 {
        assert(lines[at] == types[0]);
    }
    if allows.len() > 0 {
        assert(lines[at + types.len()] == allows[0]);
    }
    if challenges.len() > 0 {
        assert(lines[at + types.len() + allows.len()] == challenges[0]);
    }
    assert(are_head_lines(lines, response, reason, close));
}

proof fn lemma_framing_lines(response: ResponseModel)
    ensures
        framing(response) == written_lines(framing_lines(response)),
        forall|i: int|
            0 <= i < framing_lines(response).len() ==> is_one_line(
                #[trigger] framing_lines(response)[i],
            ) && !line_is_named(framing_lines(response)[i], "connection") && (line_is_named(
                framing_lines(response)[i],
                "content-length",
            ) ==> response.body.content_length() is Some) && (line_is_named(
                framing_lines(response)[i],
                "transfer-encoding",
            ) ==> response.body.content_length() is None),
{
    lemma_labels();
    lemma_name_lengths();
    if response.permits_body() {
        match response.body.content_length() {
            Some(length) => {
                reveal_strlit("Content-Length: ");
                lemma_label("Content-Length: ");
                lemma_digits_unbroken(length as nat);
                let line = "Content-Length: ".spec_bytes() + encode_utf8(decimal(length as nat));
                lemma_joined_line(
                    "Content-Length: ".spec_bytes(),
                    encode_utf8(decimal(length as nat)),
                );
                assert(line.take(16) =~= "Content-Length: ".spec_bytes());
                lemma_colon_at("Content-Length: ", 14);
                lemma_label_names("Content-Length: ", line, 14);
                lemma_single(line);
            },
            None => {
                reveal_strlit("Transfer-Encoding: chunked");
                lemma_label("Transfer-Encoding: chunked");
                let line = "Transfer-Encoding: chunked".spec_bytes();
                assert(line.take(26) =~= line);
                lemma_colon_at("Transfer-Encoding: chunked", 17);
                lemma_label_names("Transfer-Encoding: chunked", line, 17);
                lemma_single(line);
            },
        }
    } else {
        assert(framing(response) =~= written_lines(framing_lines(response)));
    }
}

proof fn lemma_closing_lines(close: bool)
    ensures
        connection_line(close) == written_lines(closing_lines(close)),
        forall|i: int|
            0 <= i < closing_lines(close).len() ==> is_one_line(#[trigger] closing_lines(close)[i])
                && !line_is_named(closing_lines(close)[i], "content-length") && !line_is_named(
                closing_lines(close)[i],
                "transfer-encoding",
            ),
{
    lemma_labels();
    lemma_name_lengths();
    if close {
        reveal_strlit("Connection: close");
        lemma_label("Connection: close");
        let line = "Connection: close".spec_bytes();
        assert(line.take(17) =~= line);
        lemma_colon_at("Connection: close", 10);
        lemma_label_names("Connection: close", line, 10);
        lemma_single(line);
    } else {
        assert(connection_line(close) =~= written_lines(closing_lines(close)));
    }
}

proof fn lemma_colon_at(label: &str, at: int)
    requires
        is_ascii_chars(label@),
        0 < at < label@.len(),
        label@[at] == ':',
        forall|i: int| 0 <= i < at ==> label@[i] != ':',
    ensures
        label.spec_bytes().len() == label@.len(),
        label.spec_bytes()[at] == 58,
        forall|i: int| 0 <= i < at ==> label.spec_bytes()[i] != 58,
{
    is_ascii_chars_encode_utf8(label@);
    assert forall|i: int| 0 <= i < at implies label.spec_bytes()[i] != 58 by {
        assert(label@[i] != ':');
        assert(label.spec_bytes()[i] == label@[i] as u8);
        assert((label@[i] as u32) < 128);
    }
    assert(label.spec_bytes()[at] == label@[at] as u8);
}

} // verus!

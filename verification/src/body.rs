//! Forms, binary bodies and multipart bodies.
use bytes::Bytes;

use vstd::prelude::*;
use vstd::string::StringSliceAdditionalSpecFns;
#[allow(unused_imports)]
use vstd::utf8::encode_utf8;

#[allow(unused_imports)]
use crate::arena::shared_bytes;
use crate::arena::shared_slice;
#[allow(unused_imports)]
use crate::params::form_encoded;
#[allow(unused_imports)]
use crate::text::{cut, same_ignoring_case, trim_end, trim_start, utf8_text};
use crate::text::{eq_ignore_case, same_text, split_once, text_of_bytes, trim};

verus! {

/// A decoded form.
#[derive(Debug)]
pub struct Form<T>(pub T);

/// A binary body.
#[derive(Debug)]
pub struct Body<'a>(pub &'a [u8]);

/// Why a body could not be decoded.
#[derive(Debug)]
pub enum BodyError {
    UnsupportedMediaType,
    Invalid(String),
}

impl BodyError {
    pub open spec fn message(self) -> Seq<char> {
        match self {
            BodyError::UnsupportedMediaType => "unsupported request content type"@,
            BodyError::Invalid(reason) => "invalid request body: "@ + reason@,
        }
    }

    pub fn to_string(&self) -> (message: String)
        ensures
            message@ == self.message(),
    {
        match self {
            BodyError::UnsupportedMediaType => String::from_str("unsupported request content type"),
            BodyError::Invalid(reason) => String::from_str("invalid request body: ").concat(
                reason.as_str(),
            ),
        }
    }
}

/// Whether the value of `Content-Type`, without its parameters, names a type.
pub open spec fn names_type(value: Option<Seq<u8>>, expected: Seq<char>) -> bool {
    match value {
        Some(value) => match utf8_text(value) {
            Some(text) => same_ignoring_case(
                vstd::utf8::encode_utf8(trim_end(trim_start(cut(text, ';').0))),
                vstd::utf8::encode_utf8(expected),
            ),
            None => false,
        },
        None => false,
    }
}

pub open spec fn bytes_of(value: Option<&[u8]>) -> Option<Seq<u8>> {
    match value {
        Some(value) => Some(value@),
        None => None,
    }
}

/// Whether the value of `Content-Type`, without its parameters, names a type.
pub fn is_content_type(value: Option<&[u8]>, expected: &str) -> (named: bool)
    ensures
        named == names_type(bytes_of(value), expected@),
{
    let value = match value {
        Some(value) => value,
        None => {
            return false;
        },
    };
    match text_of_bytes(value) {
        Some(text) => {
            let media_type = match split_once(text, 59) {
                Some((media_type, _)) => media_type,
                None => text,
            };
            eq_ignore_case(trim(media_type).as_bytes(), expected.as_bytes())
        },
        None => false,
    }
}

/// Whether the value of `Content-Type` names JSON.
pub fn is_json_content_type(value: Option<&[u8]>) -> (named: bool)
    ensures
        named == names_type(bytes_of(value), "application/json"@),
{
    is_content_type(value, "application/json")
}

/// Refuses a body that is not declared to be a URL-encoded form.
pub fn check_form(content_type: Option<&[u8]>) -> (checked: Result<(), BodyError>)
    ensures
        checked == (if names_type(
            bytes_of(content_type),
            "application/x-www-form-urlencoded"@,
        ) {
            Ok::<(), BodyError>(())
        } else {
            Err(BodyError::UnsupportedMediaType)
        }),
{
    if is_content_type(content_type, "application/x-www-form-urlencoded") {
        Ok(())
    } else {
        Err(BodyError::UnsupportedMediaType)
    }
}

/// What `multer::parse_boundary` gives for a content type: the boundary, or the
/// message of its error.
pub uninterp spec fn boundary_of(content_type: Seq<char>) -> Result<Seq<char>, Seq<char>>;

/// `multer::parse_boundary`: the boundary that a content type names. How it is
/// found, and how its absence is worded, is only named.
#[verifier::external_body]
fn parse_boundary(content_type: &str) -> (boundary: Result<String, String>)
    ensures
        boundary_texts(boundary) == boundary_of(content_type@),
{
    multer::parse_boundary(content_type).map_err(|error| error.to_string())
}

pub open spec fn boundary_texts(boundary: Result<String, String>) -> Result<Seq<char>, Seq<char>> {
    match boundary {
        Ok(boundary) => Ok(boundary@),
        Err(error) => Err(error@),
    }
}

/// What is decided about the boundary of a multipart body, given the outcome
/// of parsing it.
pub fn accept_boundary(boundary: Result<String, String>) -> (accepted: Result<String, BodyError>)
    ensures
        accepted == (match boundary {
            Ok(boundary) => Ok::<String, BodyError>(boundary),
            Err(error) => Err(BodyError::Invalid(error)),
        }),
{
    match boundary {
        Ok(boundary) => Ok(boundary),
        Err(error) => Err(BodyError::Invalid(error)),
    }
}

/// The boundary of a multipart body, which has to be declared as one.
pub fn multipart_boundary(content_type: Option<&[u8]>) -> (boundary: Result<String, BodyError>)
    ensures
        if !names_type(bytes_of(content_type), "multipart/form-data"@) {
            boundary == Err::<String, BodyError>(BodyError::UnsupportedMediaType)
        } else {
            match (
                boundary,
                boundary_of(vstd::utf8::decode_utf8(bytes_of(content_type)->0)),
            ) {
                (Ok(boundary), Ok(expected)) => boundary@ == expected,
                (Err(BodyError::Invalid(error)), Err(expected)) => error@ == expected,
                _ => false,
            }
        },
{
    if !is_content_type(content_type, "multipart/form-data") {
        return Err(BodyError::UnsupportedMediaType);
    }
    match content_type {
        Some(value) => match text_of_bytes(value) {
            Some(text) => accept_boundary(parse_boundary(text)),
            None => Err(BodyError::UnsupportedMediaType),
        },
        None => Err(BodyError::UnsupportedMediaType),
    }
}

/// One field of a multipart body, a file or a plain text.
#[derive(Debug)]
pub struct Upload {
    pub name: String,
    pub filename: Option<String>,
    pub content_type: Option<String>,
    pub bytes: Bytes,
}

impl Upload {
    /// The text of the field, if its bytes are UTF-8.
    pub fn text(&self) -> (text: Result<&str, std::str::Utf8Error>)
        ensures
            match text {
                Ok(text) => utf8_text(shared_bytes(self.bytes)) == Some(text@),
                Err(_) => utf8_text(shared_bytes(self.bytes)) is None,
            },
    {
        let text = std::str::from_utf8(shared_slice(&self.bytes));
        proof {
            if let Ok(text) = text {
                vstd::utf8::encode_utf8_decode_utf8(text@);
            }
        }
        text
    }
}

/// The fields of a multipart body in the order in which they were sent.
#[derive(Debug)]
pub struct Multipart {
    pub fields: Vec<Upload>,
}

/// Position of the last field of this name, or -1.
pub open spec fn last_field(fields: Seq<Upload>, name: Seq<char>) -> int
    decreases fields.len(),
{
    if fields.len() == 0 {
        -1
    } else if fields.last().name@ == name {
        fields.len() - 1
    } else {
        last_field(fields.drop_last(), name)
    }
}

/// The fields of this name, in order.
pub open spec fn fields_named(fields: Seq<Upload>, name: Seq<char>) -> Seq<Upload>
    decreases fields.len(),
{
    if fields.len() == 0 {
        Seq::empty()
    } else if fields.last().name@ == name {
        fields_named(fields.drop_last(), name).push(fields.last())
    } else {
        fields_named(fields.drop_last(), name)
    }
}

/// How `std::str::Utf8Error` words what keeps these bytes from being a text.
pub uninterp spec fn utf8_fault(bytes: Seq<u8>) -> Seq<char>;

/// `std::str::from_utf8`: the message of its error, where the bytes are no
/// text. The wording is only named.
#[verifier::external_body]
fn utf8_message(bytes: &[u8]) -> (message: Option<String>)
    ensures
        match message {
            Some(message) => utf8_text(bytes@) is None && message@ == utf8_fault(bytes@),
            None => utf8_text(bytes@) is Some,
        },
{
    match std::str::from_utf8(bytes) {
        Ok(_) => None,
        Err(error) => Some(error.to_string()),
    }
}

/// The names and texts of the fields that are no files, in order, or what
/// keeps the first of them that is no text from being one.
pub open spec fn text_fields(fields: Seq<Upload>) -> Result<
    Seq<(Seq<char>, Seq<char>)>,
    Seq<char>,
>
    decreases fields.len(),
{
    if fields.len() == 0 {
        Ok(Seq::empty())
    } else {
        match text_fields(fields.drop_last()) {
            Err(fault) => Err(fault),
            Ok(texts) => if fields.last().filename is Some {
                Ok(texts)
            } else {
                match utf8_text(shared_bytes(fields.last().bytes)) {
                    Some(text) => Ok(texts.push((fields.last().name@, text))),
                    None => Err(utf8_fault(shared_bytes(fields.last().bytes))),
                }
            },
        }
    }
}

/// The names and texts of pairs of strings.
pub open spec fn pair_views(pairs: Seq<(String, String)>) -> Seq<(Seq<char>, Seq<char>)> {
    pairs.map_values(|pair: (String, String)| (pair.0@, pair.1@))
}

/// `form_urlencoded::Serializer::extend_pairs`: the pairs as a URL-encoded form,
/// `=` between a name and its value and `&` between pairs. Letters, digits and
/// `*-._` stand for themselves, `+` for a space, and `%XX` for any other byte of
/// the encoded text.
#[verifier::external_body]
fn encode_form(pairs: &Vec<(String, String)>) -> (form: String)
    ensures
        encode_utf8(form@) == form_encoded(pair_views(pairs@)),
{
    form_urlencoded::Serializer::new(String::new()).extend_pairs(pairs).finish()
}

impl Multipart {
    /// The last field of this name.
    pub fn get(&self, name: &str) -> (field: Option<&Upload>)
        ensures
            match field {
                Some(field) => last_field(self.fields@, name@) >= 0 && *field
                    == self.fields@[last_field(self.fields@, name@)],
                None => last_field(self.fields@, name@) == -1,
            },
    {
        let mut i: usize = self.fields.len();
        assert(self.fields@.take(i as int) =~= self.fields@);
        while i > 0
            invariant
                0 <= i <= self.fields@.len(),
                last_field(self.fields@, name@) == last_field(self.fields@.take(i as int), name@),
            decreases i,
        {
            i -= 1;
            assert(self.fields@.take(i + 1).drop_last() =~= self.fields@.take(i as int));
            if same_text(self.fields[i].name.as_str(), name) {
                return Some(&self.fields[i]);
            }
        }
        None
    }

    /// All fields of this name, in order.
    pub fn get_all(&self, name: &str) -> (fields: Vec<&Upload>)
        ensures
            fields@.map_values(|field: &Upload| *field) == fields_named(self.fields@, name@),
    {
        let mut found: Vec<&Upload> = Vec::new();
        let mut i: usize = 0;
        while i < self.fields.len()
            invariant
                0 <= i <= self.fields@.len(),
                found@.map_values(|field: &Upload| *field) == fields_named(
                    self.fields@.take(i as int),
                    name@,
                ),
            decreases self.fields@.len() - i,
        {
            assert(self.fields@.take(i + 1).drop_last() =~= self.fields@.take(i as int));
            let ghost before = found@;
            if same_text(self.fields[i].name.as_str(), name) {
                found.push(&self.fields[i]);
                assert(found@.map_values(|field: &Upload| *field) =~= before.map_values(
                    |field: &Upload| *field,
                ).push(self.fields@[i as int]));
            }
            i += 1;
        }
        assert(self.fields@.take(i as int) =~= self.fields@);
        found
    }

    /// The names and texts of the fields that are no files.
    pub fn texts(&self) -> (pairs: Result<Vec<(String, String)>, BodyError>)
        ensures
            match pairs {
                Ok(pairs) => text_fields(self.fields@) == Ok::<
                    Seq<(Seq<char>, Seq<char>)>,
                    Seq<char>,
                >(pair_views(pairs@)),
                Err(error) => error matches BodyError::Invalid(reason) && text_fields(self.fields@)
                    == Err::<Seq<(Seq<char>, Seq<char>)>, Seq<char>>(reason@),
            },
    {
        let mut pairs: Vec<(String, String)> = Vec::new();
        let mut i: usize = 0;
        assert(pair_views(pairs@) =~= Seq::empty());
        while i < self.fields.len()
            invariant
                0 <= i <= self.fields@.len(),
                text_fields(self.fields@.take(i as int)) == Ok::<
                    Seq<(Seq<char>, Seq<char>)>,
                    Seq<char>,
                >(pair_views(pairs@)),
            decreases self.fields@.len() - i,
        {
            proof {
                assert(self.fields@.take(i + 1).drop_last() =~= self.fields@.take(i as int));
                lemma_text_fields_prefix(self.fields@, i + 1);
            }
            let field = &self.fields[i];
            if field.filename.is_none() {
                if let Some(reason) = utf8_message(shared_slice(&field.bytes)) {
                    return Err(BodyError::Invalid(reason));
                }
                if let Ok(text) = field.text() {
                    let ghost before = pairs@;
                    pairs.push((field.name.clone(), text.to_owned()));
                    assert(pair_views(pairs@) =~= pair_views(before).push((field.name@, text@)));
                }
            }
            i += 1;
        }
        assert(self.fields@.take(i as int) =~= self.fields@);
        Ok(pairs)
    }

    /// The text fields as a URL-encoded form, for decoding into an object.
    pub fn encoded_form(&self) -> (form: Result<String, BodyError>)
        ensures
            match (form, text_fields(self.fields@)) {
                (Ok(form), Ok(texts)) => encode_utf8(form@) == form_encoded(texts),
                (Err(BodyError::Invalid(reason)), Err(fault)) => reason@ == fault,
                _ => false,
            },
    {
        match self.texts() {
            Ok(pairs) => Ok(encode_form(&pairs)),
            Err(error) => Err(error),
        }
    }

    /// Adds a received field, which has to have a name.
    pub fn push(
        &mut self,
        name: Option<String>,
        filename: Option<String>,
        content_type: Option<String>,
        bytes: Bytes,
    ) -> (added: Result<(), BodyError>)
        ensures
            match name {
                Some(name) => added is Ok && final(self).fields@ == old(self).fields@.push(
                    Upload { name, filename, content_type, bytes },
                ),
                None => {
                    &&& added matches Err(BodyError::Invalid(reason)) && reason@
                        == "multipart field has no name"@
                    &&& final(self).fields@ == old(self).fields@
                },
            },
    {
        match name {
            Some(name) => {
                self.fields.push(Upload { name, filename, content_type, bytes });
                Ok(())
            },
            None => Err(BodyError::Invalid(String::from_str("multipart field has no name"))),
        }
    }
}

proof fn lemma_text_fields_prefix(fields: Seq<Upload>, count: int)
    requires
        0 <= count <= fields.len(),
    ensures
        text_fields(fields.take(count)) is Err ==> text_fields(fields) == text_fields(
            fields.take(count),
        ),
    decreases fields.len(),
{
    if count < fields.len() {
        lemma_text_fields_prefix(fields.drop_last(), count);
        assert(fields.drop_last().take(count) =~= fields.take(count));
    } else {
        assert(fields.take(count) =~= fields);
    }
}

/// A single lookup gives the last of the fields that a collecting one gives.
pub proof fn law_single_lookup_gives_the_last_field(fields: Seq<Upload>, name: Seq<char>)
    ensures
        last_field(fields, name) == -1 <==> fields_named(fields, name).len() == 0,
        last_field(fields, name) != -1 ==> 0 <= last_field(fields, name) < fields.len()
            && fields[last_field(fields, name)] == fields_named(fields, name).last(),
    decreases fields.len(),
{
    if fields.len() > 0 {
        law_single_lookup_gives_the_last_field(fields.drop_last(), name);
    }
}

} // verus!

//! Parsed requests.
use brz_ds::{EphemeralBytesArena, EphemeralBytesMut};
use brz_io::ReaderView;
use brz_json::JsonReader;

use vstd::prelude::*;
use vstd::string::StringSliceAdditionalSpecFns;

#[allow(unused_imports)]
use crate::arena::{frame_bytes, frame_capacity};
#[allow(unused_imports)]
use crate::text::{cut, same_ignoring_case};
use crate::text::{eq_ignore_case, split_once};

verus! {

/// A range of a segmented reader of `brz_io`.
#[verifier::external_type_specification]
#[verifier::external_body]
pub struct ExReaderView<'a>(ReaderView<'a>);

/// The bytes of a view, which stay as they are however the reader is read.
pub uninterp spec fn view_bytes(view: ReaderView<'_>) -> Seq<u8>;

/// `ReaderView::len`: how many bytes the view has.
pub assume_specification<'a>[ ReaderView::<'a>::len ](view: &ReaderView<'a>) -> (length: usize)
    ensures
        length == view_bytes(*view).len(),
;

/// `ReaderView::chunk_at`: the bytes from an offset to the end of the segment
/// that holds it, and none behind the end. How the bytes are divided into
/// segments is left open.
pub assume_specification<'a>[ ReaderView::<'a>::chunk_at ](
    view: &ReaderView<'a>,
    offset: usize,
) -> (chunk: &'a [u8])
    ensures
        offset >= view_bytes(*view).len() ==> chunk@.len() == 0,
        offset < view_bytes(*view).len() ==> {
            &&& 0 < chunk@.len() <= view_bytes(*view).len() - offset
            &&& chunk@ == view_bytes(*view).subrange(offset as int, offset + chunk@.len())
        },
;

/// `ReaderView::as_slice`: all bytes of the view in one piece.
pub assume_specification<'a>[ ReaderView::<'a>::as_slice ](view: &ReaderView<'a>) -> (bytes: &'a [u8])
    ensures
        bytes@ == view_bytes(*view),
;

/// `ReaderView::peek_bytes`: a range of the view in one piece, if the view has it.
#[verifier::external_body]
pub(crate) fn view_range<'a>(view: &ReaderView<'a>, offset: usize, length: usize) -> (bytes: Option<
    &'a [u8],
>)
    ensures
        match bytes {
            Some(bytes) => offset + length <= view_bytes(*view).len() && bytes@ == view_bytes(
                *view,
            ).subrange(offset as int, offset + length),
            None => offset + length > view_bytes(*view).len(),
        },
{
    view.peek_bytes(offset, length).ok()
}

/// A reader of `brz_json` for one document.
#[verifier::external_type_specification]
#[verifier::external_body]
pub struct ExJsonReader<'a>(JsonReader<'a>);

/// The bytes that a reader decodes a document from.
pub uninterp spec fn document_bytes(reader: JsonReader<'_>) -> Seq<u8>;

/// `JsonReader::from_view`: a reader of all bytes of the view, from its start.
pub assume_specification<'a>[ JsonReader::<'a>::from_view ](input: ReaderView<'a>) -> (reader:
    JsonReader<'a>)
    ensures
        document_bytes(reader) == view_bytes(input),
;

/// `ReaderView::slice`: a part of the view, if the view has it.
#[verifier::external_body]
pub(crate) fn view_part<'a>(view: &ReaderView<'a>, start: usize, end: usize) -> (part: Option<
    ReaderView<'a>,
>)
    ensures
        match part {
            Some(part) => start <= end <= view_bytes(*view).len() && view_bytes(part)
                == view_bytes(*view).subrange(start as int, end as int),
            None => start > end || end > view_bytes(*view).len(),
        },
{
    view.slice(start..end).ok()
}

/// One header of a request.
#[derive(Clone, Copy, Debug)]
pub struct Header<'a> {
    pub name: &'a str,
    pub value: &'a [u8],
}

/// The value of the first of `headers` that has this name, in any case.
pub open spec fn header_value(headers: Seq<Header<'_>>, name: Seq<u8>) -> Option<Seq<u8>>
    decreases headers.len(),
{
    if headers.len() == 0 {
        None
    } else if same_ignoring_case(headers[0].name.spec_bytes(), name) {
        Some(headers[0].value@)
    } else {
        header_value(headers.skip(1), name)
    }
}

/// Looks a header up by its name, in any case; the first one counts.
pub fn find_header<'a>(headers: &[Header<'a>], name: &str) -> (value: Option<&'a [u8]>)
    ensures
        match value {
            Some(value) => header_value(headers@, name.spec_bytes()) == Some(value@),
            None => header_value(headers@, name.spec_bytes()) is None,
        },
{
    let mut i: usize = 0;
    assert(headers@.skip(0) =~= headers@);
    while i < headers.len()
        invariant
            0 <= i <= headers@.len(),
            header_value(headers@, name.spec_bytes()) == header_value(
                headers@.skip(i as int),
                name.spec_bytes(),
            ),
        decreases headers@.len() - i,
    {
        let header = headers[i];
        if eq_ignore_case(header.name.as_bytes(), name.as_bytes()) {
            return Some(header.value);
        }
        assert(headers@.skip(i as int).skip(1) =~= headers@.skip(i + 1));
        i += 1;
    }
    None
}

/// The path of a request target.
pub fn path_of<'a>(target: &'a str) -> (path: &'a str)
    ensures
        path@ == cut(target@, '?').0,
{
    match split_once(target, 63) {
        Some((path, _)) => path,
        None => target,
    }
}

/// A parsed request with a body that was received completely.
#[derive(Clone, Copy, Debug)]
pub struct Request<'a> {
    method: &'a str,
    target: &'a str,
    headers: &'a [Header<'a>],
    body: ReaderView<'a>,
    peer_addr: &'a str,
    response_arena: &'a EphemeralBytesArena,
}

/// What a [`Request`] says.
#[verifier::ext_equal]
pub struct RequestModel<'a> {
    pub method: Seq<char>,
    pub target: Seq<char>,
    pub headers: Seq<Header<'a>>,
    pub body: Seq<u8>,
    /// The remote address, written out.
    pub peer_addr: Seq<char>,
}

impl<'a> View for Request<'a> {
    type V = RequestModel<'a>;

    closed spec fn view(&self) -> RequestModel<'a> {
        RequestModel {
            method: self.method@,
            target: self.target@,
            headers: self.headers@,
            body: view_bytes(self.body),
            peer_addr: self.peer_addr@,
        }
    }
}

impl<'a> Request<'a> {
    pub closed spec fn arena(self) -> EphemeralBytesArena {
        *self.response_arena
    }

    pub fn new(
        method: &'a str,
        target: &'a str,
        headers: &'a [Header<'a>],
        body: ReaderView<'a>,
        peer_addr: &'a str,
        response_arena: &'a EphemeralBytesArena,
    ) -> (request: Self)
        ensures
            request@ == (RequestModel {
                method: method@,
                target: target@,
                headers: headers@,
                body: view_bytes(body),
                peer_addr: peer_addr@,
            }),
            request.arena() == *response_arena,
    {
        Request { method, target, headers, body, peer_addr, response_arena }
    }

    /// The body in its segments.
    pub fn body_view(&self) -> (body: ReaderView<'a>)
        ensures
            view_bytes(body) == self@.body,
    {
        self.body
    }

    /// The method as it was sent.
    pub fn method(&self) -> (method: &'a str)
        ensures
            method@ == self@.method,
    {
        self.method
    }

    /// The target as it was sent, with its query.
    pub fn target(&self) -> (target: &'a str)
        ensures
            target@ == self@.target,
    {
        self.target
    }

    /// The path of the target.
    pub fn path(&self) -> (path: &'a str)
        ensures
            path@ == cut(self@.target, '?').0,
    {
        path_of(self.target)
    }

    /// The query of the target, without the question mark.
    pub fn query(&self) -> (query: Option<&'a str>)
        ensures
            match query {
                Some(query) => cut(self@.target, '?').1 == Some(query@),
                None => cut(self@.target, '?').1 is None,
            },
    {
        match split_once(self.target, 63) {
            Some((_, query)) => Some(query),
            None => None,
        }
    }

    /// The headers in the order in which they were sent.
    pub fn headers(&self) -> (headers: &'a [Header<'a>])
        ensures
            headers@ == self@.headers,
    {
        self.headers
    }

    /// The value of the first header of this name, in any case.
    pub fn header(&self, name: &str) -> (value: Option<&'a [u8]>)
        ensures
            match value {
                Some(value) => header_value(self@.headers, name.spec_bytes()) == Some(value@),
                None => header_value(self@.headers, name.spec_bytes()) is None,
            },
    {
        find_header(self.headers, name)
    }

    /// The whole body in one piece.
    pub fn body(&self) -> (body: &'a [u8])
        ensures
            body@ == self@.body,
    {
        self.body.as_slice()
    }

    /// A reader of the body as a JSON document, with a cursor of its own.
    pub fn json_body(&self) -> (reader: JsonReader<'a>)
        ensures
            document_bytes(reader) == self@.body,
    {
        JsonReader::from_view(self.body)
    }

    /// The remote address of the connection.
    pub fn peer_addr(&self) -> (peer_addr: &'a str)
        ensures
            peer_addr@ == self@.peer_addr,
    {
        self.peer_addr
    }

    /// Room for a response body in the server's arena.
    pub fn response_bytes(&self, capacity: usize) -> (frame: EphemeralBytesMut)
        requires
            capacity <= isize::MAX,
        ensures
            frame_bytes(frame) == Seq::<u8>::empty(),
            frame_capacity(frame) == capacity,
    {
        self.response_arena.alloc(capacity)
    }

    pub fn response_arena(&self) -> (arena: &'a EphemeralBytesArena)
        ensures
            *arena == self.arena(),
    {
        self.response_arena
    }
}

} // verus!

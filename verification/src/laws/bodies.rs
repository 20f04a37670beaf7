//! Laws of authentication, of bodies and of what is said of faults.
use vstd::prelude::*;
use vstd::string::StringSliceAdditionalSpecFns;
use vstd::utf8::*;

#[allow(unused_imports)]
use crate::arena::shared_bytes;
use crate::auth::AuthFailure;
#[allow(unused_imports)]
use crate::body::{
    bytes_of, check_form, fields_named, last_field, names_type, text_fields, utf8_fault,
};
use crate::body::{BodyError, Upload};
use crate::error::Error;
#[allow(unused_imports)]
use crate::laws::texts::{
    law_bytes_are_the_text_that_they_encode, law_texts_are_cut_at_the_first_separator,
    law_white_space_around_texts_is_dropped, only_white_space,
};
#[allow(unused_imports)]
use crate::rejection::default_rejection;
use crate::rejection::{Rejection, RejectionKind};
use crate::response::Response;
#[allow(unused_imports)]
use crate::response::{BodyModel, ResponseModel};
#[allow(unused_imports)]
use crate::text::{same_ignoring_case, utf8_text};

verus! {

/// A request that is not authenticated is answered without a body: with the
/// challenge where its credentials are at fault, and otherwise with the fault of
/// the server, which ends the connection where it was not expected.
pub proof fn law_unauthenticated_requests_are_answered(failure: AuthFailure)
    ensures
        ({
            let answer = failure.response();
            &&& answer.body == BodyModel::Whole(Seq::empty())
            &&& answer.headers == Seq::<u8>::empty()
            &&& answer.status == 401 <==> failure is MissingCredentials
                || failure is InvalidCredentials
            &&& answer.status == 503 <==> failure is Unavailable
            &&& answer.status == 500 <==> failure is Internal
            &&& answer.close <==> failure is Internal
            &&& answer.www_authenticate == (match failure {
                AuthFailure::MissingCredentials { challenge } => Some(challenge@),
                AuthFailure::InvalidCredentials { challenge } => Some(challenge@),
                _ => None,
            })
        }),
{
}

/// A value that cannot be bound is answered without a body, with 415 where the
/// type of the content is at fault and 400 otherwise.
pub proof fn law_refused_bindings_are_answered(error: &Rejection, response: Response)
    requires
        call_ensures(default_rejection, (error,), response),
    ensures
        response@.status == 415 <==> error.kind is ContentType,
        response@.status == 400 <==> !(error.kind is ContentType),
        response@.body == BodyModel::Whole(Seq::empty()),
        response@.headers == Seq::<u8>::empty(),
        !response@.close,
{
}

/// A body is refused for its type or for its content, and the application is
/// told which, and why.
pub proof fn law_refused_bodies_tell_why(
    error: &BodyError,
    parameter: &'static str,
    rejection: Rejection,
)
    requires
        call_ensures(Rejection::of_body, (error, parameter), rejection),
    ensures
        rejection.kind is ContentType <==> error is UnsupportedMediaType,
        rejection.kind is Body <==> error is Invalid,
        rejection.parameter@ == parameter@,
        rejection.input is None,
        error is UnsupportedMediaType ==> rejection.message@
            == "unsupported request content type"@,
        error matches BodyError::Invalid(reason) ==> rejection.message@
            == "invalid request body: "@ + reason@,
{
}

/// Every error of the server is worded with what it is an error of.
pub proof fn law_errors_are_worded(error: Error)
    ensures
        error matches Error::InvalidConfig(reason) ==> error.message()
            == "invalid server configuration: "@ + reason@,
        error matches Error::Io(reason) ==> error.message() == "I/O error: "@ + reason@,
        error matches Error::Task(reason) ==> error.message() == "connection task failed: "@
            + reason@,
{
}

/// A content type is compared without regard to case, to white space around it
/// and to the parameters behind it, and to nothing else. Bytes that are no text
/// name none.
pub proof fn law_content_types_are_compared_without_parameters(
    before: Seq<char>,
    media: Seq<char>,
    after: Seq<char>,
    parameters: Seq<char>,
    expected: Seq<char>,
    bytes: Seq<u8>,
)
    requires
        only_white_space(before),
        only_white_space(after),
        media.len() > 0,
        !only_white_space(media.take(1)),
        !only_white_space(media.skip(media.len() - 1)),
        !before.contains(';') && !media.contains(';') && !after.contains(';'),
    ensures
        names_type(Some(encode_utf8(before + media + after)), expected) <==> same_ignoring_case(
            encode_utf8(media),
            encode_utf8(expected),
        ),
        names_type(
            Some(encode_utf8(before + media + after + seq![';'] + parameters)),
            expected,
        ) <==> same_ignoring_case(encode_utf8(media), encode_utf8(expected)),
        !valid_utf8(bytes) ==> !names_type(Some(bytes), expected),
        !names_type(None, expected),
{
    let front = before + media + after;
    assert(!front.contains(';')) by {
        if front.contains(';') {
            let i = choose|i: int| 0 <= i < front.len() && front[i] == ';';
            if i < before.len() {
                assert(before[i] == ';');
            } else if i < before.len() + media.len() {
                assert(media[i - before.len()] == ';');
            } else {
                assert(after[i - before.len() - media.len()] == ';');
            }
        }
    }
    law_texts_are_cut_at_the_first_separator(front, parameters, ';');
    law_white_space_around_texts_is_dropped(before, media, after);
    law_bytes_are_the_text_that_they_encode(encode_utf8(front), front);
    let whole = front + seq![';'] + parameters;
    law_bytes_are_the_text_that_they_encode(encode_utf8(whole), whole);
}

/// A form has to be declared as one.
pub proof fn law_forms_are_declared(content_type: Option<&[u8]>, outcome: Result<(), BodyError>)
    requires
        call_ensures(check_form, (content_type,), outcome),
    ensures
        outcome is Ok <==> names_type(
            bytes_of(content_type),
            "application/x-www-form-urlencoded"@,
        ),
        outcome matches Err(error) ==> error is UnsupportedMediaType,
{
}

/// Fields are found by their exact name: all of them in order, and of several
/// the last one alone.
pub proof fn law_fields_are_found_by_name(
    fields: Seq<Upload>,
    more: Seq<Upload>,
    field: Upload,
    name: Seq<char>,
)
    ensures
        fields_named(fields + more, name) == fields_named(fields, name) + fields_named(more, name),
        fields_named(seq![field], name) == (if field.name@ == name {
            seq![field]
        } else {
            Seq::empty()
        }),
        last_field(fields, name) >= 0 ==> last_field(fields, name) < fields.len()
            && fields[last_field(fields, name)].name@ == name,
        forall|i: int|
            last_field(fields, name) < i < fields.len() ==> (#[trigger] fields[i]).name@ != name,
        last_field(fields, name) >= -1,
    decreases more.len(), fields.len(),
{
    assert(seq![field].drop_last() =~= Seq::<Upload>::empty());
    assert(seq![field].last() == field);
    assert(fields_named(seq![field].drop_last(), name) =~= Seq::<Upload>::empty());
    assert(Seq::<Upload>::empty().push(field) =~= seq![field]);
    if more.len() > 0 {
        law_fields_are_found_by_name(fields, more.drop_last(), field, name);
        assert((fields + more).drop_last() =~= fields + more.drop_last());
        assert((fields + more).last() == more.last());
        assert(fields_named(fields + more, name) =~= fields_named(fields, name) + fields_named(
            more,
            name,
        ));
    } else {
        assert(fields + more =~= fields);
        if fields.len() > 0 {
            let shorter = fields.drop_last();
            law_fields_are_found_by_name(shorter, more, field, name);
            assert forall|i: int| last_field(fields, name) < i < fields.len() implies (
            #[trigger] fields[i]).name@ != name by {
                if i < shorter.len() {
                    assert(shorter[i] == fields[i]);
                }
            }
        }
    }
}

/// The texts of a body are those of its fields that are no files, in order. One
/// that is no text is the fault of the whole.
pub proof fn law_texts_are_those_of_plain_fields(fields: Seq<Upload>, field: Upload)
    ensures
        text_fields(Seq::empty()) == Ok::<Seq<(Seq<char>, Seq<char>)>, Seq<char>>(Seq::empty()),
        text_fields(fields) is Err ==> text_fields(fields.push(field)) == text_fields(fields),
        field.filename is Some ==> text_fields(fields.push(field)) == text_fields(fields),
        field.filename is None && text_fields(fields) is Ok && valid_utf8(shared_bytes(field.bytes))
            ==> text_fields(fields.push(field)) == Ok::<Seq<(Seq<char>, Seq<char>)>, Seq<char>>(
            text_fields(fields)->Ok_0.push(
                (field.name@, decode_utf8(shared_bytes(field.bytes))),
            ),
        ),
        field.filename is None && text_fields(fields) is Ok && !valid_utf8(
            shared_bytes(field.bytes),
        ) ==> text_fields(fields.push(field)) == Err::<Seq<(Seq<char>, Seq<char>)>, Seq<char>>(
            utf8_fault(shared_bytes(field.bytes)),
        ),
{
    assert(fields.push(field).drop_last() =~= fields);
}

} // verus!

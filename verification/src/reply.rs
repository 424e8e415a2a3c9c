//! Answers to HTTP requests.
use vstd::prelude::*;

verus! {

/// The outcome of a request, as its HTTP status tells it.
#[derive(Clone, Copy, Debug, PartialEq, Eq, Structural)]
pub enum Status {
    Success,
    Accepted,
    BadRequest,
    NotFound,
    UnsupportedMediaType,
    InternalServerError,
}

impl Status {
    /// The HTTP status code.
    pub open spec fn spec_code(self) -> u16 {
        match self {
            Status::Success => 200,
            Status::Accepted => 202,
            Status::BadRequest => 400,
            Status::NotFound => 404,
            Status::UnsupportedMediaType => 415,
            Status::InternalServerError => 500,
        }
    }

    /// The HTTP status code.
    pub fn code(self) -> (res: u16)
        ensures
            res == self.spec_code(),
    {
        match self {
            Status::Success => 200,
            Status::Accepted => 202,
            Status::BadRequest => 400,
            Status::NotFound => 404,
            Status::UnsupportedMediaType => 415,
            Status::InternalServerError => 500,
        }
    }
}

/// A status and a text for the client.
#[derive(Debug, PartialEq)]
pub struct Reply {
    pub status: Status,
    pub body: String,
}

/// What a reply says.
pub struct ReplyView {
    pub status: Status,
    pub body: Seq<char>,
}

impl View for Reply {
    type V = ReplyView;

    open spec fn view(&self) -> ReplyView {
        ReplyView { status: self.status, body: self.body@ }
    }
}

/// The reply with this status and text.
pub open spec fn answer(status: Status, body: Seq<char>) -> ReplyView {
    ReplyView { status, body }
}

/// A reply with a fixed text.
pub fn reply(status: Status, body: &str) -> (res: Reply)
    ensures
        res@ == answer(status, body@),
{
    Reply { status, body: body.to_owned() }
}

/// A reply with a fixed text and a detail behind it.
pub fn reply_with(status: Status, body: &str, detail: &str) -> (res: Reply)
    ensures
        res@ == answer(status, body@ + detail@),
{
    let mut text = body.to_owned();
    vstd::string::StringExecFns::append(&mut text, detail);
    Reply { status, body: text }
}

/// A reply has the status and the text that it is made with.
pub proof fn replies_say_what_they_are_given(status: Status, body: Seq<char>, given: Reply)
    ensures
        answer(status, body).status == status,
        answer(status, body).body == body,
        given@.status == given.status,
        given@.body == given.body@,
{
}

/// The codes of the statuses, as HTTP defines them.
pub proof fn codes_of_the_statuses()
    ensures
        Status::Success.spec_code() == 200,
        Status::Accepted.spec_code() == 202,
        Status::BadRequest.spec_code() == 400,
        Status::NotFound.spec_code() == 404,
        Status::UnsupportedMediaType.spec_code() == 415,
        Status::InternalServerError.spec_code() == 500,
{
}

} // verus!

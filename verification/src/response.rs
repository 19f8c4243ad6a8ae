//! The response builder: status line, headers and body in wire format.

use crate::decimal::{append_decimal, decimal};
use crate::request::{crlf, section_end};
use vstd::prelude::*;
use vstd::utf8::encode_utf8;

verus! {

/// Status line of a successful request.
pub const OK_200: &'static str = "HTTP/1.1 200 OK\r\n";

/// Status line of a successful upload.
pub const OK_201: &'static str = "HTTP/1.1 201 OK\r\n";

/// Status line of a request that found nothing.
pub const NOT_FOUND_404: &'static str = "HTTP/1.1 404 NOT FOUND\r\n";

/// Header line of a plain-text body.
pub const CONTENT_TYPE_PLAIN: &'static str = "Content-Type: text/plain\r\n";

/// Header line of a body of arbitrary bytes.
pub const CONTENT_TYPE_OCTET: &'static str = "Content-Type: application/octet-stream\r\n";

/// The number of bytes that `text` takes in UTF-8.
pub open spec fn byte_len(text: Seq<char>) -> nat {
    encode_utf8(text).len()
}

/// The name of the header that carries the body's length, with its colon
/// and space.
pub open spec fn content_length_label() -> Seq<char> {
    "Content-Length: "@
}

/// A response with a body: status line, content-type line, the length of
/// the body in bytes, a blank line, the body, and a line ending.
pub open spec fn with_data(status: Seq<char>, content_type: Seq<char>, data: Seq<char>) -> Seq<
    char,
> {
    status + content_type + content_length_label() + decimal(byte_len(data)) + section_end()
        + data + crlf()
}

/// What a request came to.
#[derive(Debug, PartialEq, Eq)]
pub enum RouteOutcome {
    RootOk,
    EchoOk(String),
    UserAgentOk(String),
    FileGetOk(String),
    FileGetNotFound,
    FilePostCreated,
    FilePostNotFound,
    NotFound,
}

/// What a request came to, with the texts it carries as sequences.
pub enum Outcome {
    RootOk,
    EchoOk(Seq<char>),
    UserAgentOk(Seq<char>),
    FileGetOk(Seq<char>),
    FileGetNotFound,
    FilePostCreated,
    FilePostNotFound,
    NotFound,
}

impl View for RouteOutcome {
    type V = Outcome;

    open spec fn view(&self) -> Outcome {
        match self {
            RouteOutcome::RootOk => Outcome::RootOk,
            RouteOutcome::EchoOk(text) => Outcome::EchoOk(text@),
            RouteOutcome::UserAgentOk(agent) => Outcome::UserAgentOk(agent@),
            RouteOutcome::FileGetOk(data) => Outcome::FileGetOk(data@),
            RouteOutcome::FileGetNotFound => Outcome::FileGetNotFound,
            RouteOutcome::FilePostCreated => Outcome::FilePostCreated,
            RouteOutcome::FilePostNotFound => Outcome::FilePostNotFound,
            RouteOutcome::NotFound => Outcome::NotFound,
        }
    }
}

/// The response that goes out for an outcome. Every response ends with one
/// more line ending than its status line or its body brought.
pub open spec fn response_of(outcome: Outcome) -> Seq<char> {
    match outcome {
        Outcome::RootOk => OK_200@ + crlf(),
        Outcome::EchoOk(text) => with_data(OK_200@, CONTENT_TYPE_PLAIN@, text) + crlf(),
        Outcome::UserAgentOk(agent) => with_data(OK_200@, CONTENT_TYPE_PLAIN@, agent) + crlf(),
        Outcome::FileGetOk(data) => with_data(OK_200@, CONTENT_TYPE_OCTET@, data) + crlf(),
        Outcome::FilePostCreated => OK_201@ + crlf(),
        Outcome::FileGetNotFound | Outcome::FilePostNotFound | Outcome::NotFound => NOT_FOUND_404@
            + crlf(),
    }
}

/// Appends a body and its headers to the start of a response.
pub fn response_with_data(response: &str, content_type: &str, data: &str) -> (out: String)
    ensures
        out@ == with_data(response@, content_type@, data@),
{
    proof {
        reveal_strlit("\r\n\r\n");
        reveal_strlit("\r\n");
        assert("\r\n\r\n"@ =~= section_end());
        assert("\r\n"@ =~= crlf());
    }
    let mut out = String::from_str(response);
    out.append(content_type);
    out.append("Content-Length: ");
    append_decimal(&mut out, data.as_bytes().len());
    out.append("\r\n\r\n");
    out.append(data);
    out.append("\r\n");
    assert(out@ =~= with_data(response@, content_type@, data@));
    out
}

impl RouteOutcome {
    /// The response that goes out for this outcome.
    pub fn response(&self) -> (out: String)
        ensures
            out@ == response_of(self@),
    {
        proof {
            reveal_strlit("\r\n");
            assert("\r\n"@ =~= crlf());
        }
        let mut out = match self {
            RouteOutcome::RootOk => String::from_str(OK_200),
            RouteOutcome::EchoOk(text) => response_with_data(
                OK_200,
                CONTENT_TYPE_PLAIN,
                text.as_str(),
            ),
            RouteOutcome::UserAgentOk(agent) => response_with_data(
                OK_200,
                CONTENT_TYPE_PLAIN,
                agent.as_str(),
            ),
            RouteOutcome::FileGetOk(data) => response_with_data(
                OK_200,
                CONTENT_TYPE_OCTET,
                data.as_str(),
            ),
            RouteOutcome::FilePostCreated => String::from_str(OK_201),
            RouteOutcome::FileGetNotFound => String::from_str(NOT_FOUND_404),
            RouteOutcome::FilePostNotFound => String::from_str(NOT_FOUND_404),
            RouteOutcome::NotFound => String::from_str(NOT_FOUND_404),
        };
        out.append("\r\n");
        out
    }
}

} // verus!

//! The route dispatcher: from one request to the next thing to do, and from
//! the result of a file operation to the outcome.
//!
//! The dispatcher does no I/O. Where a route needs the filesystem it names
//! the operation in a [`Step`]; the caller performs it and hands the result
//! to [`file_read_outcome`] or [`file_write_outcome`].

use crate::headers::{header_map, headers_to_map};
use crate::error::RequestError;
use crate::request::{
    body_of, buffer_text, has_body, header_lines, header_lines_of, method_of, path_of,
    try_extract_path, try_get_http_method, try_parse_body, HttpMethod,
};
use crate::response::{Outcome, RouteOutcome};
use crate::text::{chars_of, lemma_pieces_len, pieces, same, split, starts_with};
use vstd::prelude::*;
use vstd::utf8::{decode_utf8, valid_utf8};

verus! {

/// The next thing to do for a request.
#[derive(Debug, PartialEq, Eq)]
pub enum Step {
    /// The outcome is known.
    Done(RouteOutcome),
    /// Read the file at this path as text.
    ReadFile(String),
    /// Write to the file at this path (the first field) the body of the
    /// request (the second), creating or truncating it.
    WriteFile(String, String),
}

/// The next thing to do for a request, with its texts as sequences.
pub enum Plan {
    Done(Outcome),
    ReadFile(Seq<char>),
    WriteFile(Seq<char>, Seq<char>),
}

impl View for Step {
    type V = Plan;

    open spec fn view(&self) -> Plan {
        match self {
            Step::Done(outcome) => Plan::Done(outcome@),
            Step::ReadFile(path) => Plan::ReadFile(path@),
            Step::WriteFile(path, body) => Plan::WriteFile(path@, body@),
        }
    }
}

/// The text of an optional string.
pub open spec fn text_of(s: Option<String>) -> Option<Seq<char>> {
    match s {
        Some(t) => Some(t@),
        None => None,
    }
}

/// The name of the file that a path under `/files` speaks of: what follows
/// its last slash.
pub open spec fn file_name(path: Seq<char>) -> Seq<char> {
    pieces(path, seq!['/']).last()
}

/// The route table, on a request line's path. The routes are tried in this
/// order: the root, `/echo/`, `/user-agent`, `/files`; a path that starts
/// with none of them is not found.
pub open spec fn route(text: Seq<char>, directory: Option<Seq<char>>) -> Result<
    Plan,
    RequestError,
> {
    let lines = header_lines(text);
    if lines.len() == 0 || path_of(lines[0]) is None {
        Err(RequestError::MalformedRequestLine)
    } else {
        let path = path_of(lines[0]).unwrap();
        if path == "/"@ {
            Ok(Plan::Done(Outcome::RootOk))
        } else if "/echo/"@.is_prefix_of(path) {
            Ok(Plan::Done(Outcome::EchoOk(path.skip("/echo/"@.len() as int))))
        } else if "/user-agent"@.is_prefix_of(path) {
            let headers = header_map(lines);
            if headers.contains_key("User-Agent"@) {
                Ok(Plan::Done(Outcome::UserAgentOk(headers["User-Agent"@])))
            } else {
                Err(RequestError::MissingHeader)
            }
        } else if "/files"@.is_prefix_of(path) {
            match directory {
                None => Err(RequestError::MissingDirectory),
                Some(dir) => {
                    let target = dir + file_name(path);
                    match method_of(lines[0]) {
                        None => Err(RequestError::UnsupportedMethod),
                        Some(HttpMethod::GET) => Ok(Plan::ReadFile(target)),
                        Some(HttpMethod::POST) => if has_body(text) {
                            Ok(Plan::WriteFile(target, body_of(text)))
                        } else {
                            Err(RequestError::MissingBody)
                        },
                    }
                },
            }
        } else {
            Ok(Plan::Done(Outcome::NotFound))
        }
    }
}

/// What the server does with the bytes of one read buffer.
pub open spec fn dispatch(buffer: Seq<u8>, directory: Option<Seq<char>>) -> Result<
    Plan,
    RequestError,
> {
    if valid_utf8(buffer) {
        route(decode_utf8(buffer), directory)
    } else {
        Err(RequestError::MalformedUtf8)
    }
}

/// The outcome of a download, from what reading the file gave: its text, or
/// nothing where the read failed.
pub open spec fn read_outcome(contents: Option<Seq<char>>) -> Outcome {
    match contents {
        Some(data) => Outcome::FileGetOk(data),
        None => Outcome::FileGetNotFound,
    }
}

/// The outcome of an upload, from whether the write succeeded.
pub open spec fn write_outcome(written: bool) -> Outcome {
    if written {
        Outcome::FilePostCreated
    } else {
        Outcome::FilePostNotFound
    }
}

/// Whether `result` is what the route table gives, `expected`.
pub open spec fn agrees(result: Result<Step, RequestError>, expected: Result<Plan, RequestError>) -> bool {
    match result {
        Ok(step) => expected == Ok::<Plan, RequestError>(step@),
        Err(e) => expected == Err::<Plan, RequestError>(e),
    }
}

/// Decides what to do for the request `text`.
pub fn route_request(text: &str, directory: &Option<String>) -> (result: Result<
    Step,
    RequestError,
>)
    ensures
        agrees(result, route(text@, text_of(*directory))),
{
    let headers = header_lines_of(text);
    if headers.len() == 0 {
        return Err(RequestError::MalformedRequestLine);
    }
    let request_line = headers[0].as_str();
    let path = match try_extract_path(request_line) {
        Some(path) => path,
        None => {
            return Err(RequestError::MalformedRequestLine);
        },
    };
    let path_chars = chars_of(path.as_str());
    if same(path_chars.as_slice(), chars_of("/").as_slice()) {
        Ok(Step::Done(RouteOutcome::RootOk))
    } else if starts_with(path_chars.as_slice(), chars_of("/echo/").as_slice()) {
        proof {
            reveal_strlit("/echo/");
        }
        let rest = path.as_str().substring_char(6, path_chars.len());
        assert(rest@ =~= path@.skip(6));
        Ok(Step::Done(RouteOutcome::EchoOk(rest.to_owned())))
    } else if starts_with(path_chars.as_slice(), chars_of("/user-agent").as_slice()) {
        let map = headers_to_map(&headers);
        match map.get("User-Agent") {
            Some(agent) => Ok(Step::Done(RouteOutcome::UserAgentOk(agent.clone()))),
            None => Err(RequestError::MissingHeader),
        }
    } else if starts_with(path_chars.as_slice(), chars_of("/files").as_slice()) {
        let dir = match directory {
            Some(dir) => dir,
            None => {
                return Err(RequestError::MissingDirectory);
            },
        };
        proof {
            reveal_strlit("/");
            assert("/"@ =~= seq!['/']);
            lemma_pieces_len(path@, seq!['/'], 0);
        }
        let segments = split(path.as_str(), "/");
        let mut target = dir.clone();
        target.append(segments[segments.len() - 1].as_str());
        match try_get_http_method(request_line) {
            None => Err(RequestError::UnsupportedMethod),
            Some(HttpMethod::GET) => Ok(Step::ReadFile(target)),
            Some(HttpMethod::POST) => match try_parse_body(text) {
                Some(body) => Ok(Step::WriteFile(target, body)),
                None => Err(RequestError::MissingBody),
            },
        }
    } else {
        Ok(Step::Done(RouteOutcome::NotFound))
    }
}

/// Handles the request in the read buffer `buf`, for a server whose files
/// lie under `directory`: says what to do next, or why the request cannot
/// be answered.
pub fn handle_incoming_request(buf: &[u8], directory: &Option<String>) -> (result: Result<
    Step,
    RequestError,
>)
    ensures
        agrees(result, dispatch(buf@, text_of(*directory))),
{
    match buffer_text(buf) {
        Ok(text) => route_request(text, directory),
        Err(e) => Err(e),
    }
}

/// The outcome of a download, from what reading the file gave.
pub fn file_read_outcome(contents: Option<String>) -> (outcome: RouteOutcome)
    ensures
        outcome@ == read_outcome(text_of(contents)),
{
    match contents {
        Some(data) => RouteOutcome::FileGetOk(data),
        None => RouteOutcome::FileGetNotFound,
    }
}

/// The outcome of an upload, from whether the write succeeded.
pub fn file_write_outcome(written: bool) -> (outcome: RouteOutcome)
    ensures
        outcome@ == write_outcome(written),
{
    if written {
        RouteOutcome::FilePostCreated
    } else {
        RouteOutcome::FilePostNotFound
    }
}

} // verus!

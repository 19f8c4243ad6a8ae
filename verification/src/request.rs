//! The request parser: from the bytes of the read buffer to header lines,
//! path, method and body.

use crate::error::RequestError;
use crate::text::{
    chars_of, find, first_match, lemma_first_match_some, lemma_pieces_len, matches_at,
    nul_trimmed_end, pieces, same, split, texts, without_trailing_nul,
};
use vstd::prelude::*;
use vstd::utf8::{decode_utf8, valid_utf8};

verus! {

/// The size in bytes of the buffer that one request is read into. What a
/// request does not fill of it holds zero bytes.
pub const BUFFER_SIZE: usize = 1024;

/// The methods that the server answers.
#[derive(Clone, Copy, Debug, PartialEq, Eq, Structural)]
pub enum HttpMethod {
    GET,
    POST,
}

/// The line ending of the protocol, CR LF.
pub open spec fn crlf() -> Seq<char> {
    seq!['\r', '\n']
}

/// The blank line that ends the header section, CR LF CR LF.
pub open spec fn section_end() -> Seq<char> {
    seq!['\r', '\n', '\r', '\n']
}

/// The lines of `lines` that hold at least one character.
pub open spec fn non_empty(lines: Seq<Seq<char>>) -> Seq<Seq<char>> {
    lines.filter(|line: Seq<char>| line.len() > 0)
}

/// The header lines of a request: the non-empty pieces between line endings,
/// but for the last of them, which is taken for what is left of the buffer
/// behind the request. The first is the request line.
pub open spec fn header_lines(text: Seq<char>) -> Seq<Seq<char>> {
    let lines = non_empty(pieces(text, crlf()));
    if lines.len() > 0 {
        lines.drop_last()
    } else {
        lines
    }
}

/// Whether a blank line ends the header section of `text`.
pub open spec fn has_body(text: Seq<char>) -> bool {
    first_match(text, section_end(), 0) is Some
}

/// The body of a request: all that follows the first blank line, without
/// the NUL characters at its end.
pub open spec fn body_of(text: Seq<char>) -> Seq<char>
    recommends
        has_body(text),
{
    without_trailing_nul(
        text.subrange(
            first_match(text, section_end(), 0).unwrap() + section_end().len(),
            text.len() as int,
        ),
    )
}

/// The tokens of a request line: its pieces between single spaces.
pub open spec fn tokens(line: Seq<char>) -> Seq<Seq<char>> {
    pieces(line, seq![' '])
}

/// The path of a request line: its second token.
pub open spec fn path_of(line: Seq<char>) -> Option<Seq<char>> {
    if tokens(line).len() >= 2 {
        Some(tokens(line)[1])
    } else {
        None
    }
}

/// The method of a request line: its first token, where that is `GET` or
/// `POST`.
pub open spec fn method_of(line: Seq<char>) -> Option<HttpMethod> {
    let verb = tokens(line)[0];
    if verb == seq!['P', 'O', 'S', 'T'] {
        Some(HttpMethod::POST)
    } else if verb == seq!['G', 'E', 'T'] {
        Some(HttpMethod::GET)
    } else {
        None
    }
}

/// Filtering a sequence that got one more line.
pub proof fn lemma_non_empty_push(lines: Seq<Seq<char>>, line: Seq<char>)
    ensures
        non_empty(lines.push(line)) == if line.len() > 0 {
            non_empty(lines).push(line)
        } else {
            non_empty(lines)
        },
{
    reveal(Seq::filter);
    assert(lines.push(line).drop_last() =~= lines);
}

/// `core::str::from_utf8`: the text that `bytes` encode where they are valid
/// UTF-8, and nothing where they are not. The contract is taken from the
/// documentation of that function and is not proved here.
#[verifier::external_body]
fn decode(bytes: &[u8]) -> (text: Option<&str>)
    ensures
        text is Some <==> valid_utf8(bytes@),
        text matches Some(s) ==> s@ == decode_utf8(bytes@),
{
    match core::str::from_utf8(bytes) {
        Ok(s) => Some(s),
        Err(_) => None,
    }
}

/// The text that the read buffer holds, where it is valid UTF-8.
pub fn buffer_text<'a>(buffer: &'a [u8]) -> (result: Result<&'a str, RequestError>)
    ensures
        result is Ok <==> valid_utf8(buffer@),
        result matches Ok(text) ==> text@ == decode_utf8(buffer@),
        result matches Err(e) ==> e == RequestError::MalformedUtf8,
{
    match decode(buffer) {
        Some(text) => Ok(text),
        None => Err(RequestError::MalformedUtf8),
    }
}

/// The header lines of the text `text`.
pub fn header_lines_of(text: &str) -> (lines: Vec<String>)
    ensures
        texts(lines@) == header_lines(text@),
{
    proof {
        reveal_strlit("\r\n");
        assert("\r\n"@ =~= crlf());
    }
    let parts = split(text, "\r\n");
    let mut lines: Vec<String> = Vec::new();
    let mut i: usize = 0;
    proof {
        reveal(Seq::filter);
        assert(texts(parts@).take(0) =~= Seq::<Seq<char>>::empty());
        assert(texts(lines@) =~= non_empty(texts(parts@).take(0)));
    }
    while i < parts.len()
        invariant
            i <= parts.len(),
            texts(lines@) == non_empty(texts(parts@).take(i as int)),
        decreases parts.len() - i,
    {
        let ghost kept = texts(lines@);
        let ghost seen = texts(parts@).take(i as int);
        proof {
            lemma_non_empty_push(seen, parts[i as int]@);
            assert(texts(parts@).take(i as int + 1) =~= seen.push(parts[i as int]@));
        }
        if !parts[i].as_str().is_empty() {
            lines.push(parts[i].clone());
            assert(texts(lines@) =~= kept.push(parts[i as int]@));
        }
        i += 1;
    }
    assert(texts(parts@).take(parts.len() as int) =~= texts(parts@));
    lines.pop();
    assert(texts(lines@) =~= header_lines(text@));
    lines
}

/// Parses the read buffer into its header lines.
pub fn parse_headers(buffer: &[u8]) -> (lines: Vec<String>)
    requires
        valid_utf8(buffer@),
    ensures
        texts(lines@) == header_lines(decode_utf8(buffer@)),
{
    header_lines_of(buffer_text(buffer).unwrap())
}

/// The body of the request `text`, if a blank line ends its header section.
pub fn try_parse_body(text: &str) -> (body: Option<String>)
    ensures
        body is Some <==> has_body(text@),
        body matches Some(b) ==> b@ == body_of(text@),
{
    proof {
        reveal_strlit("\r\n\r\n");
        assert("\r\n\r\n"@ =~= section_end());
    }
    let chars = chars_of(text);
    let end = chars_of("\r\n\r\n");
    let len: usize = chars.len();
    match find(chars.as_slice(), end.as_slice(), 0) {
        Some(i) => {
            proof {
                lemma_first_match_some(text@, section_end(), 0);
                assert(matches_at(text@, section_end(), i as int));
                assert(i + 4 <= len);
            }
            let start: usize = i + 4;
            let stop: usize = nul_trimmed_end(chars.as_slice(), start);
            Some(text.substring_char(start, stop).to_owned())
        },
        None => None,
    }
}

/// Parses the body of the request out of the read buffer.
pub fn parse_body(buffer: &[u8]) -> (body: String)
    requires
        valid_utf8(buffer@),
        has_body(decode_utf8(buffer@)),
    ensures
        body@ == body_of(decode_utf8(buffer@)),
{
    try_parse_body(buffer_text(buffer).unwrap()).unwrap()
}

/// The path of the request line `line`, if the line has two tokens.
pub fn try_extract_path(line: &str) -> (path: Option<String>)
    ensures
        path is Some <==> path_of(line@) is Some,
        path matches Some(p) ==> Some(p@) == path_of(line@),
{
    proof {
        reveal_strlit(" ");
        assert(" "@ =~= seq![' ']);
    }
    let parts = split(line, " ");
    if parts.len() >= 2 {
        Some(parts[1].clone())
    } else {
        None
    }
}

/// Extracts the path from the request line.
pub fn extract_path(line: &String) -> (path: String)
    requires
        path_of(line@) is Some,
    ensures
        Some(path@) == path_of(line@),
{
    try_extract_path(line.as_str()).unwrap()
}

/// The method of the request line `line`, if it is one that the server
/// answers.
pub fn try_get_http_method(line: &str) -> (method: Option<HttpMethod>)
    ensures
        method == method_of(line@),
{
    proof {
        reveal_strlit(" ");
        assert(" "@ =~= seq![' ']);
        reveal_strlit("POST");
        assert("POST"@ =~= seq!['P', 'O', 'S', 'T']);
        reveal_strlit("GET");
        assert("GET"@ =~= seq!['G', 'E', 'T']);
        lemma_pieces_len(line@, seq![' '], 0);
    }
    let parts = split(line, " ");
    let verb = chars_of(parts[0].as_str());
    if same(verb.as_slice(), chars_of("POST").as_slice()) {
        Some(HttpMethod::POST)
    } else if same(verb.as_slice(), chars_of("GET").as_slice()) {
        Some(HttpMethod::GET)
    } else {
        None
    }
}

/// Reads the method off the request line.
pub fn get_http_method(header: &String) -> (method: HttpMethod)
    requires
        method_of(header@) is Some,
    ensures
        Some(method) == method_of(header@),
{
    try_get_http_method(header.as_str()).unwrap()
}

} // verus!

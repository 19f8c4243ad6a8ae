//! What holds of the server for every request that is well formed.
//!
//! A request lies in the read buffer as its header lines, each followed by
//! a line ending, then the blank line, then the rest of the buffer: the
//! body, and NUL characters as far as the request did not fill the buffer.

use crate::decimal::decimal;
use crate::error::RequestError;
use crate::headers::{header_entry, header_map};
use crate::request::{
    body_of, crlf, has_body, header_lines, lemma_non_empty_push, method_of, non_empty, path_of,
    section_end, tokens, HttpMethod,
};
use crate::response::{
    byte_len, content_length_label, response_of, Outcome, CONTENT_TYPE_OCTET,
    CONTENT_TYPE_PLAIN, OK_200,
};
use crate::router::{dispatch, file_name, read_outcome, route, Plan};
use crate::text::{
    first_match, is_first_match, lemma_first_match_is, lemma_first_match_shift,
    lemma_first_match_some, lemma_first_piece, lemma_match_shift, lemma_one_piece,
    lemma_pieces_len, matches_at, pieces, pieces_from, without_trailing_nul,
};
use vstd::prelude::*;
use vstd::utf8::{encode_utf8, encode_utf8_decode_utf8, encode_utf8_valid_utf8};

verus! {

/// `n` NUL characters: what an under-filled read buffer holds behind the
/// request.
pub open spec fn padding(n: nat) -> Seq<char> {
    Seq::new(n, |i: int| '\0')
}

/// No line ending occurs in `s`.
pub open spec fn line_break_free(s: Seq<char>) -> bool {
    forall|j: int| !matches_at(s, crlf(), j)
}

/// Each of `lines` can stand as a header line: it holds a character, and no
/// line ending.
pub open spec fn header_lines_ok(lines: Seq<Seq<char>>) -> bool {
    forall|i: int| 0 <= i < lines.len() ==> (#[trigger] lines[i]).len() > 0 && line_break_free(lines[i])
}

/// Something other than line endings stands in `rest`.
pub open spec fn has_text(rest: Seq<char>) -> bool {
    non_empty(pieces(rest, crlf())).len() > 0
}

/// The lines, each followed by a line ending.
pub open spec fn joined(lines: Seq<Seq<char>>) -> Seq<char>
    decreases lines.len(),
{
    if lines.len() == 0 {
        Seq::empty()
    } else {
        lines.first() + crlf() + joined(lines.drop_first())
    }
}

/// A request as it lies in the read buffer: its header lines, the blank
/// line, and the rest of the buffer.
pub open spec fn request_text(lines: Seq<Seq<char>>, rest: Seq<char>) -> Seq<char> {
    joined(lines) + crlf() + rest
}

/// The request line of a request in HTTP/1.1.
pub open spec fn request_line(method: Seq<char>, path: Seq<char>) -> Seq<char> {
    method + seq![' '] + path + " HTTP/1.1"@
}

/// Before the end of a line without line endings, no line ending and no
/// blank line begins in the text that the line opens.
proof fn lemma_line_is_first(line: Seq<char>, rest: Seq<char>)
    requires
        line_break_free(line),
    ensures
        forall|j: int| 0 <= j < line.len() ==> !matches_at(line + crlf() + rest, crlf(), j),
        forall|j: int|
            0 <= j < line.len() ==> !matches_at(line + section_end() + rest, section_end(), j),
{
    let a = line + crlf() + rest;
    let b = line + section_end() + rest;
    assert forall|j: int| 0 <= j < line.len() implies !matches_at(a, crlf(), j) by {
        if matches_at(a, crlf(), j) {
            assert(a[j + 0] == crlf()[0]);
            assert(a[j + 1] == crlf()[1]);
            if j + 1 < line.len() {
                assert forall|k: int| 0 <= k < crlf().len() implies line[j + k]
                    == #[trigger] crlf()[k] by {
                    assert(a[j + k] == line[j + k]);
                }
                assert(matches_at(line, crlf(), j));
            } else {
                assert(a[j + 1] == crlf()[0]);
            }
        }
    }
    assert forall|j: int| 0 <= j < line.len() implies !matches_at(b, section_end(), j) by {
        if matches_at(b, section_end(), j) {
            assert(b[j + 0] == section_end()[0]);
            assert(b[j + 1] == section_end()[1]);
            if j + 1 < line.len() {
                assert forall|k: int| 0 <= k < crlf().len() implies line[j + k]
                    == #[trigger] crlf()[k] by {
                    assert(b[j + k] == line[j + k]);
                }
                assert(matches_at(line, crlf(), j));
            } else {
                assert(b[j + 1] == section_end()[0]);
            }
        }
    }
}

/// The last piece of a text that does not end in a line feed holds at
/// least one character.
proof fn lemma_last_piece(s: Seq<char>, from: int)
    requires
        0 <= from < s.len(),
        s.last() != '\n',
    ensures
        pieces_from(s, crlf(), from).len() > 0,
        pieces_from(s, crlf(), from).last().len() > 0,
    decreases s.len() - from,
{
    match first_match(s, crlf(), from) {
        Some(i) => {
            lemma_first_match_some(s, crlf(), from);
            assert(s[i + 1] == crlf()[1]);
            lemma_last_piece(s, i + 2);
            let rest = pieces_from(s, crlf(), i + 2);
            assert((seq![s.subrange(from, i)] + rest).last() == rest.last());
        },
        None => {},
    }
}

/// Among no lines there is no non-empty one.
proof fn lemma_non_empty_of_none()
    ensures
        non_empty(Seq::<Seq<char>>::empty()) == Seq::<Seq<char>>::empty(),
{
    reveal(Seq::filter);
    assert(non_empty(Seq::<Seq<char>>::empty()) =~= Seq::<Seq<char>>::empty());
}

/// A first line stays first among the non-empty lines where it holds a
/// character, and goes where it holds none.
proof fn lemma_non_empty_first(line: Seq<char>, others: Seq<Seq<char>>)
    ensures
        non_empty(seq![line] + others) == if line.len() > 0 {
            seq![line] + non_empty(others)
        } else {
            non_empty(others)
        },
    decreases others.len(),
{
    let none = Seq::<Seq<char>>::empty();
    lemma_non_empty_of_none();
    if others.len() == 0 {
        assert(seq![line] + others =~= none.push(line));
        assert(others =~= none);
        lemma_non_empty_push(none, line);
        assert(none.push(line) =~= seq![line] + none);
    } else {
        let init = others.drop_last();
        let last = others.last();
        assert(others =~= init.push(last));
        assert(seq![line] + others =~= (seq![line] + init).push(last));
        lemma_non_empty_first(line, init);
        lemma_non_empty_push(seq![line] + init, last);
        lemma_non_empty_push(init, last);
        if line.len() > 0 {
            assert((seq![line] + non_empty(init)).push(last) =~= seq![line] + non_empty(
                init,
            ).push(last));
        }
    }
}

/// A text that is not empty and does not end in a line feed holds
/// something other than line endings.
pub proof fn lemma_has_text(rest: Seq<char>)
    requires
        rest.len() > 0,
        rest.last() != '\n',
    ensures
        has_text(rest),
{
    lemma_last_piece(rest, 0);
    let all = pieces(rest, crlf());
    assert(all =~= all.drop_last().push(all.last()));
    lemma_non_empty_push(all.drop_last(), all.last());
}

/// A buffer that the request did not fill holds something other than line
/// endings behind the blank line, whatever the body.
pub proof fn lemma_unfilled_buffer(body: Seq<char>, pad: nat)
    requires
        pad >= 1,
    ensures
        has_text(body + padding(pad)),
{
    assert((body + padding(pad)).last() == '\0');
    lemma_has_text(body + padding(pad));
}

/// Padding is one line, which is dropped: it holds no header line, and it
/// holds text exactly if it holds a character.
pub proof fn lemma_padding_lines(pad: nat)
    ensures
        header_lines(padding(pad)) == Seq::<Seq<char>>::empty(),
        has_text(padding(pad)) == (pad >= 1),
{
    let zeros = padding(pad);
    let none = Seq::<Seq<char>>::empty();
    assert forall|j: int| 0 <= j implies !matches_at(zeros, crlf(), j) by {
        if matches_at(zeros, crlf(), j) {
            assert(zeros[j + 0] == crlf()[0]);
        }
    }
    lemma_one_piece(zeros, crlf());
    lemma_non_empty_of_none();
    lemma_non_empty_push(none, zeros);
    assert(none.push(zeros) =~= seq![zeros]);
    if pad >= 1 {
        assert(non_empty(seq![zeros]) =~= seq![zeros]);
        assert(seq![zeros].drop_last() =~= none);
    }
}

/// The non-empty lines of a request are its header lines, then those of
/// the rest of the buffer.
pub proof fn lemma_request_pieces(lines: Seq<Seq<char>>, rest: Seq<char>)
    requires
        header_lines_ok(lines),
    ensures
        non_empty(pieces(request_text(lines, rest), crlf())) == lines + non_empty(
            pieces(rest, crlf()),
        ),
    decreases lines.len(),
{
    let text = request_text(lines, rest);
    let found = non_empty(pieces(rest, crlf()));
    if lines.len() == 0 {
        let none = Seq::<char>::empty();
        assert(text =~= none + crlf() + rest);
        lemma_line_is_first(none, rest);
        lemma_first_piece(none, crlf(), rest);
        lemma_non_empty_first(none, pieces(rest, crlf()));
        assert(lines + found =~= found);
    } else {
        let first = lines.first();
        let tail = lines.drop_first();
        let after = request_text(tail, rest);
        assert(text =~= first + crlf() + after);
        lemma_tail_ok(lines);
        lemma_line_is_first(first, after);
        lemma_first_piece(first, crlf(), after);
        lemma_non_empty_first(first, pieces(after, crlf()));
        lemma_request_pieces(tail, rest);
        assert(seq![first] + (tail + found) =~= lines + found);
    }
}

/// Header lines. The parser gives back the header lines of a request as
/// they were sent and in their order, followed by what it takes for header
/// lines in the rest of the buffer, where something other than line endings
/// stands behind the blank line. Where nothing does, the last header line
/// is lost. This holds of every request whose header lines each hold a
/// character and no line ending.
pub proof fn law_header_lines(lines: Seq<Seq<char>>, rest: Seq<char>)
    requires
        header_lines_ok(lines),
    ensures
        header_lines(request_text(lines, rest)) == if has_text(rest) {
            lines + header_lines(rest)
        } else if lines.len() > 0 {
            lines.drop_last()
        } else {
            lines
        },
{
    lemma_request_pieces(lines, rest);
    let found = non_empty(pieces(rest, crlf()));
    if has_text(rest) {
        assert((lines + found).drop_last() =~= lines + found.drop_last());
    } else {
        assert(lines + found =~= lines);
    }
}

/// No blank line begins in a header line or in its line ending, where
/// another header line follows.
proof fn lemma_no_blank_line(first: Seq<char>, next: Seq<char>, more: Seq<char>)
    requires
        line_break_free(first),
        line_break_free(next),
        next.len() > 0,
    ensures
        forall|j: int|
            0 <= j < first.len() + 2 ==> !matches_at(
                first + crlf() + (next + crlf() + more),
                section_end(),
                j,
            ),
{
    let after = next + crlf() + more;
    let text = first + crlf() + after;
    let end = section_end();
    assert forall|j: int| 0 <= j < first.len() + 2 implies !matches_at(text, end, j) by {
        if matches_at(text, end, j) {
            assert(text[j + 0] == end[0]);
            assert(text[j + 1] == end[1]);
            assert(text[j + 2] == end[2]);
            assert(text[j + 3] == end[3]);
            if j + 1 < first.len() {
                assert forall|k: int| 0 <= k < crlf().len() implies first[j + k]
                    == #[trigger] crlf()[k] by {
                    assert(text[j + k] == first[j + k]);
                }
                assert(matches_at(first, crlf(), j));
            } else if j + 1 == first.len() {
                assert(text[j + 1] == crlf()[0]);
            } else if j == first.len() {
                assert(text[j + 2] == after[0]);
                assert(text[j + 3] == after[1]);
                assert(after[0] == next[0]);
                if next.len() >= 2 {
                    assert(after[1] == next[1]);
                    assert forall|k: int| 0 <= k < crlf().len() implies next[0 + k]
                        == #[trigger] crlf()[k] by {}
                    assert(matches_at(next, crlf(), 0));
                } else {
                    assert(after[1] == crlf()[0]);
                }
            } else {
                assert(text[j] == crlf()[1]);
            }
        }
    }
}

/// The header lines behind the first are header lines too.
proof fn lemma_tail_ok(lines: Seq<Seq<char>>)
    requires
        lines.len() >= 1,
        header_lines_ok(lines),
    ensures
        header_lines_ok(lines.drop_first()),
        lines.first().len() > 0,
        line_break_free(lines.first()),
{
    let tail = lines.drop_first();
    assert(lines.first() == lines[0]);
    assert forall|i: int| 0 <= i < tail.len() implies (#[trigger] tail[i]).len() > 0
        && line_break_free(tail[i]) by {
        assert(tail[i] == lines[i + 1]);
    }
}

/// The blank line of a request is the first one in the buffer.
proof fn lemma_first_blank_line(lines: Seq<Seq<char>>, rest: Seq<char>)
    requires
        lines.len() >= 1,
        header_lines_ok(lines),
    ensures
        joined(lines).len() >= 2,
        first_match(request_text(lines, rest), section_end(), 0) == Some(
            joined(lines).len() - 2,
        ),
    decreases lines.len(),
{
    let first = lines.first();
    let tail = lines.drop_first();
    let text = request_text(lines, rest);
    let end = section_end();
    lemma_tail_ok(lines);
    if tail.len() == 0 {
        assert(joined(tail) =~= Seq::<char>::empty());
        assert(joined(lines) =~= first + crlf());
        assert(text =~= first + end + rest);
        lemma_line_is_first(first, rest);
        lemma_first_piece(first, end, rest);
    } else {
        let after = request_text(tail, rest);
        let head = first + crlf();
        let next = tail.first();
        let more = joined(tail.drop_first()) + crlf() + rest;
        lemma_tail_ok(tail);
        lemma_first_blank_line(tail, rest);
        let at = head.len() + joined(tail).len() - 2;
        assert(text == head + after) by {
            assert(text =~= head + after);
        }
        assert(joined(lines).len() == head.len() + joined(tail).len());
        assert(is_first_match(text, end, head.len() as int, at)) by {
            lemma_first_match_shift(head, after, end, 0);
            lemma_first_match_some(head + after, end, head.len() as int);
        }
        assert(text == first + crlf() + (next + crlf() + more)) by {
            assert(text =~= first + crlf() + (next + crlf() + more));
        }
        assert(is_first_match(text, end, 0, at)) by {
            lemma_no_blank_line(first, next, more);
        }
        lemma_first_match_is(text, end, 0, at);
    }
}

/// Body. The parser gives back the body of a request: all that stands
/// behind the blank line, without the NUL characters at the end. This
/// holds of every request with a request line whose header lines each hold
/// a character and no line ending.
pub proof fn law_body(lines: Seq<Seq<char>>, rest: Seq<char>)
    requires
        lines.len() >= 1,
        header_lines_ok(lines),
    ensures
        has_body(request_text(lines, rest)),
        body_of(request_text(lines, rest)) == without_trailing_nul(rest),
{
    lemma_first_blank_line(lines, rest);
    let text = request_text(lines, rest);
    assert(text.subrange(joined(lines).len() - 2 + 4, text.len() as int) =~= rest);
}

/// Trailing NUL characters go, and nothing else, where the text before them
/// does not itself end in one.
pub proof fn lemma_padding_stripped(body: Seq<char>, pad: nat)
    requires
        body.len() == 0 || body.last() != '\0',
    ensures
        without_trailing_nul(body + padding(pad)) == body,
    decreases pad,
{
    if pad == 0 {
        assert(body + padding(pad) =~= body);
    } else {
        let padded = body + padding(pad);
        assert(padded.last() == '\0');
        assert(padded.drop_last() =~= body + padding((pad - 1) as nat));
        lemma_padding_stripped(body, (pad - 1) as nat);
    }
}

/// A text without the character `c`, then `c`, then more text: the first
/// piece between occurrences of `c` is the text before it.
pub proof fn lemma_first_piece_of_char(a: Seq<char>, c: char, b: Seq<char>)
    requires
        !a.contains(c),
    ensures
        pieces(a + seq![c] + b, seq![c]) == seq![a] + pieces(b, seq![c]),
{
    let pat = seq![c];
    let s = a + pat + b;
    assert forall|j: int| 0 <= j < a.len() implies !matches_at(s, pat, j) by {
        if matches_at(s, pat, j) {
            assert(s[j + 0] == pat[0]);
            assert(a[j] == c);
        }
    }
    lemma_first_piece(a, pat, b);
}

/// A text without the character `c` is one piece between occurrences of
/// `c`.
pub proof fn lemma_one_piece_of_char(s: Seq<char>, c: char)
    requires
        !s.contains(c),
    ensures
        pieces(s, seq![c]) == seq![s],
{
    let pat = seq![c];
    assert forall|j: int| 0 <= j implies !matches_at(s, pat, j) by {
        if matches_at(s, pat, j) {
            assert(s[j + 0] == pat[0]);
            assert(s[j] == c);
        }
    }
    lemma_one_piece(s, pat);
}

/// Request line. Method and path are read off their request line as they
/// were sent, where neither holds a space; and the line can stand as a
/// header line where neither holds a line ending.
pub proof fn law_request_line(method: Seq<char>, path: Seq<char>)
    requires
        !method.contains(' '),
        !path.contains(' '),
    ensures
        tokens(request_line(method, path))[0] == method,
        path_of(request_line(method, path)) == Some(path),
        request_line(method, path).len() > 0,
        line_break_free(method) && line_break_free(path) ==> line_break_free(
            request_line(method, path),
        ),
{
    reveal_strlit(" HTTP/1.1");
    let space = seq![' '];
    let version = seq!['H', 'T', 'T', 'P', '/', '1', '.', '1'];
    let line = request_line(method, path);
    let tail = path + space + version;
    assert(line =~= method + space + tail);
    lemma_first_piece_of_char(method, ' ', tail);
    lemma_first_piece_of_char(path, ' ', version);
    lemma_pieces_len(version, space, 0);
    if line_break_free(method) && line_break_free(path) {
        let m = method.len() as int;
        let p = path.len() as int;
        assert forall|j: int| !matches_at(line, crlf(), j) by {
            if matches_at(line, crlf(), j) {
                assert(line[j + 0] == crlf()[0]);
                assert(line[j + 1] == crlf()[1]);
                if j + 1 < m {
                    assert forall|k: int| 0 <= k < crlf().len() implies method[j + k]
                        == #[trigger] crlf()[k] by {
                        assert(line[j + k] == method[j + k]);
                    }
                    assert(matches_at(method, crlf(), j));
                } else if j < m {
                    assert(line[j + 1] == ' ');
                } else if j == m {
                    assert(line[j] == ' ');
                } else if j + 1 < m + 1 + p {
                    assert forall|k: int| 0 <= k < crlf().len() implies path[j - m - 1 + k]
                        == #[trigger] crlf()[k] by {
                        assert(line[j + k] == path[j - m - 1 + k]);
                    }
                    assert(matches_at(path, crlf(), j - m - 1));
                } else if j < m + 1 + p {
                    assert(line[j + 1] == ' ');
                } else {
                    assert(line[j] == " HTTP/1.1"@[j - m - 1 - p]);
                }
            }
        }
    }
}

/// A text that starts with characters other than CR and goes on without a
/// line ending holds no line ending.
proof fn lemma_literal_break_free(lit: Seq<char>, s: Seq<char>)
    requires
        forall|k: int| 0 <= k < lit.len() ==> lit[k] != '\r',
        line_break_free(s),
    ensures
        line_break_free(lit + s),
{
    assert forall|j: int| !matches_at(lit + s, crlf(), j) by {
        if matches_at(lit + s, crlf(), j) {
            assert((lit + s)[j + 0] == crlf()[0]);
            if j < lit.len() {
                assert((lit + s)[j] == lit[j]);
            } else {
                lemma_match_shift(lit, s, crlf(), j - lit.len());
            }
        }
    }
}

/// The methods `GET` and `POST` hold no space and no line ending, and are
/// read as themselves.
proof fn lemma_methods()
    ensures
        !"GET"@.contains(' '),
        !"POST"@.contains(' '),
        line_break_free("GET"@),
        line_break_free("POST"@),
        "GET"@ == seq!['G', 'E', 'T'],
        "POST"@ == seq!['P', 'O', 'S', 'T'],
{
    reveal_strlit("GET");
    reveal_strlit("POST");
    let none = Seq::<char>::empty();
    assert("GET"@ =~= seq!['G', 'E', 'T']);
    assert("POST"@ =~= seq!['P', 'O', 'S', 'T']);
    lemma_literal_break_free("GET"@, none);
    assert("GET"@ + none =~= "GET"@);
    lemma_literal_break_free("POST"@, none);
    assert("POST"@ + none =~= "POST"@);
}

/// How a well-formed request is read: its request line is the first header
/// line, and method and path are the first two tokens of that line.
proof fn lemma_request_read(
    method: Seq<char>,
    path: Seq<char>,
    headers: Seq<Seq<char>>,
    rest: Seq<char>,
)
    requires
        !method.contains(' '),
        !path.contains(' '),
        line_break_free(method),
        line_break_free(path),
        header_lines_ok(headers),
        has_text(rest),
    ensures
        header_lines_ok(seq![request_line(method, path)] + headers),
        header_lines(request_text(seq![request_line(method, path)] + headers, rest)) == seq![
            request_line(method, path),
        ] + headers + header_lines(rest),
        header_lines(request_text(seq![request_line(method, path)] + headers, rest)).len() >= 1,
        header_lines(request_text(seq![request_line(method, path)] + headers, rest))[0]
            == request_line(method, path),
        tokens(request_line(method, path))[0] == method,
        path_of(request_line(method, path)) == Some(path),
{
    let line = request_line(method, path);
    let lines = seq![line] + headers;
    law_request_line(method, path);
    assert(header_lines_ok(lines)) by {
        assert forall|i: int| 0 <= i < lines.len() implies (#[trigger] lines[i]).len() > 0
            && line_break_free(lines[i]) by {
            if i > 0 {
                assert(lines[i] == headers[i - 1]);
            }
        }
    }
    law_header_lines(lines, rest);
}

/// A buffer that holds the UTF-8 encoding of a text is handled as the route
/// table says of that text.
pub proof fn law_dispatch_of_text(text: Seq<char>, directory: Option<Seq<char>>)
    ensures
        dispatch(encode_utf8(text), directory) == route(text, directory),
{
    encode_utf8_valid_utf8(text);
    encode_utf8_decode_utf8(text);
}

/// The path `/echo/` + `s` takes the echo route, and `s` is what follows
/// the prefix.
proof fn lemma_echo_path(s: Seq<char>)
    requires
        !s.contains(' '),
        line_break_free(s),
    ensures
        !("/echo/"@ + s).contains(' '),
        line_break_free("/echo/"@ + s),
        "/echo/"@ + s != "/"@,
        "/echo/"@.is_prefix_of("/echo/"@ + s),
        ("/echo/"@ + s).skip("/echo/"@.len() as int) == s,
{
    let path = "/echo/"@ + s;
    reveal_strlit("/echo/");
    reveal_strlit("/");
    lemma_literal_break_free("/echo/"@, s);
    assert forall|i: int| 0 <= i < path.len() implies path[i] != ' ' by {
        if i >= 6 {
            assert(path[i] == s[i - 6]);
        }
    }
    assert("/echo/"@ =~= path.subrange(0, 6));
    assert(path.skip(6) =~= s);
}

/// The route of a request for `/echo/` + `s`.
proof fn lemma_echo_route(
    s: Seq<char>,
    headers: Seq<Seq<char>>,
    pad: nat,
    directory: Option<Seq<char>>,
)
    requires
        !s.contains(' '),
        line_break_free(s),
        header_lines_ok(headers),
        pad >= 1,
    ensures
        route(
            request_text(seq![request_line("GET"@, "/echo/"@ + s)] + headers, padding(pad)),
            directory,
        ) == Ok::<Plan, RequestError>(Plan::Done(Outcome::EchoOk(s))),
{
    lemma_methods();
    lemma_echo_path(s);
    lemma_padding_lines(pad);
    lemma_request_read("GET"@, "/echo/"@ + s, headers, padding(pad));
}

/// Echo. The request `GET /echo/{s} HTTP/1.1`, with whatever header lines,
/// is answered with status 200, the body `s` as it stands, and a
/// `Content-Length` of the number of bytes of `s` in UTF-8. This holds of
/// every `s` without a space and without a line ending, where the request
/// does not fill the buffer.
pub proof fn law_echo(
    s: Seq<char>,
    headers: Seq<Seq<char>>,
    pad: nat,
    directory: Option<Seq<char>>,
)
    requires
        !s.contains(' '),
        line_break_free(s),
        header_lines_ok(headers),
        pad >= 1,
    ensures
        dispatch(
            encode_utf8(
                request_text(seq![request_line("GET"@, "/echo/"@ + s)] + headers, padding(pad)),
            ),
            directory,
        ) == Ok::<Plan, RequestError>(Plan::Done(Outcome::EchoOk(s))),
        response_of(Outcome::EchoOk(s)) == OK_200@ + CONTENT_TYPE_PLAIN@ + content_length_label()
            + decimal(byte_len(s)) + section_end() + s + crlf() + crlf(),
{
    let text = request_text(seq![request_line("GET"@, "/echo/"@ + s)] + headers, padding(pad));
    lemma_echo_route(s, headers, pad, directory);
    law_dispatch_of_text(text, directory);
}

/// User agent. A request for a path that starts with `/user-agent` is
/// answered with the value that its header lines, the request line among
/// them, give for the name `User-Agent`, and cannot be answered where they
/// give none. This holds of every such path without a space and without a
/// line ending, where the request does not fill the buffer.
pub proof fn law_user_agent(
    method: Seq<char>,
    path: Seq<char>,
    headers: Seq<Seq<char>>,
    pad: nat,
    directory: Option<Seq<char>>,
)
    requires
        !method.contains(' '),
        line_break_free(method),
        "/user-agent"@.is_prefix_of(path),
        !path.contains(' '),
        line_break_free(path),
        header_lines_ok(headers),
        pad >= 1,
    ensures
        dispatch(
            encode_utf8(request_text(seq![request_line(method, path)] + headers, padding(pad))),
            directory,
        ) == if header_map(seq![request_line(method, path)] + headers).contains_key(
            "User-Agent"@,
        ) {
            Ok::<Plan, RequestError>(
                Plan::Done(
                    Outcome::UserAgentOk(
                        header_map(seq![request_line(method, path)] + headers)["User-Agent"@],
                    ),
                ),
            )
        } else {
            Err::<Plan, RequestError>(RequestError::MissingHeader)
        },
{
    let lines = seq![request_line(method, path)] + headers;
    let text = request_text(lines, padding(pad));
    lemma_padding_lines(pad);
    lemma_request_read(method, path, headers, padding(pad));
    assert(header_lines(text) == lines) by {
        assert(lines + Seq::<Seq<char>>::empty() =~= lines);
    }
    assert(path != "/"@ && !"/echo/"@.is_prefix_of(path)) by {
        reveal_strlit("/user-agent");
        reveal_strlit("/echo/");
        reveal_strlit("/");
        assert("/user-agent"@[1] == path.subrange(0, 11)[1]);
        if "/echo/"@.is_prefix_of(path) {
            assert("/echo/"@[1] == path.subrange(0, 6)[1]);
        }
    }
    law_dispatch_of_text(text, directory);
}

/// Header names are looked up as they were sent: a name is in the map of
/// some header lines exactly if one of the lines has that very name.
pub proof fn law_header_names_exact(lines: Seq<Seq<char>>, name: Seq<char>)
    ensures
        header_map(lines).contains_key(name) <==> exists|i: int|
            0 <= i < lines.len() && #[trigger] header_entry(lines[i]).0 == name,
    decreases lines.len(),
{
    if lines.len() > 0 {
        let init = lines.drop_last();
        law_header_names_exact(init, name);
        if header_map(lines).contains_key(name) {
            if header_entry(lines.last()).0 == name {
                assert(header_entry(lines[lines.len() - 1]).0 == name);
            } else {
                let i = choose|i: int|
                    0 <= i < init.len() && #[trigger] header_entry(init[i]).0 == name;
                assert(header_entry(lines[i]).0 == name);
            }
        }
        if exists|i: int| 0 <= i < lines.len() && #[trigger] header_entry(lines[i]).0 == name {
            let i = choose|i: int|
                0 <= i < lines.len() && #[trigger] header_entry(lines[i]).0 == name;
            if i < init.len() {
                assert(header_entry(init[i]).0 == name);
            }
        }
    }
}

/// The name of the file that the path `/files/` + `name` speaks of is
/// `name`, where `name` holds no slash.
pub proof fn lemma_file_name(name: Seq<char>)
    requires
        !name.contains('/'),
    ensures
        file_name("/files/"@ + name) == name,
{
    let slash = seq!['/'];
    let dir = seq!['f', 'i', 'l', 'e', 's'];
    let path = "/files/"@ + name;
    let tail = dir + slash + name;
    let none = Seq::<char>::empty();
    assert(path == none + slash + tail) by {
        reveal_strlit("/files/");
        assert(path =~= none + slash + tail);
    }
    assert(pieces(path, slash) == seq![none] + pieces(tail, slash)) by {
        lemma_first_piece_of_char(none, '/', tail);
    }
    assert(pieces(tail, slash) == seq![dir] + pieces(name, slash)) by {
        lemma_first_piece_of_char(dir, '/', name);
    }
    assert(pieces(name, slash) == seq![name]) by {
        lemma_one_piece_of_char(name, '/');
    }
    assert(pieces(path, slash) =~= seq![none, dir, name]);
}

/// A request for a path that starts with `/files` goes to the file route,
/// with the method and the body that were sent.
proof fn lemma_files_request(
    method: Seq<char>,
    path: Seq<char>,
    headers: Seq<Seq<char>>,
    rest: Seq<char>,
)
    requires
        !method.contains(' '),
        line_break_free(method),
        "/files"@.is_prefix_of(path),
        !path.contains(' '),
        line_break_free(path),
        header_lines_ok(headers),
        has_text(rest),
    ensures
        header_lines(request_text(seq![request_line(method, path)] + headers, rest)).len() >= 1,
        path_of(header_lines(request_text(seq![request_line(method, path)] + headers, rest))[0])
            == Some(path),
        tokens(header_lines(request_text(seq![request_line(method, path)] + headers, rest))[0])[0]
            == method,
        has_body(request_text(seq![request_line(method, path)] + headers, rest)),
        body_of(request_text(seq![request_line(method, path)] + headers, rest))
            == without_trailing_nul(rest),
        path != "/"@,
        !"/echo/"@.is_prefix_of(path),
        !"/user-agent"@.is_prefix_of(path),
{
    lemma_request_read(method, path, headers, rest);
    law_body(seq![request_line(method, path)] + headers, rest);
    reveal_strlit("/files");
    assert("/files"@[1] == path.subrange(0, 6)[1]);
    assert(path != "/"@) by {
        reveal_strlit("/");
    }
    assert(!"/echo/"@.is_prefix_of(path)) by {
        reveal_strlit("/echo/");
        if "/echo/"@.is_prefix_of(path) {
            assert("/echo/"@[1] == path.subrange(0, 6)[1]);
        }
    }
    assert(!"/user-agent"@.is_prefix_of(path)) by {
        reveal_strlit("/user-agent");
        if "/user-agent"@.is_prefix_of(path) {
            assert("/user-agent"@[1] == path.subrange(0, 11)[1]);
        }
    }
}

/// The route of an upload.
proof fn lemma_upload_route(
    path: Seq<char>,
    body: Seq<char>,
    directory: Seq<char>,
    headers: Seq<Seq<char>>,
    pad: nat,
)
    requires
        "/files"@.is_prefix_of(path),
        !path.contains(' '),
        line_break_free(path),
        body.len() == 0 || body.last() != '\0',
        header_lines_ok(headers),
        has_text(body + padding(pad)),
    ensures
        route(
            request_text(seq![request_line("POST"@, path)] + headers, body + padding(pad)),
            Some(directory),
        ) == Ok::<Plan, RequestError>(Plan::WriteFile(directory + file_name(path), body)),
{
    let rest = body + padding(pad);
    let text = request_text(seq![request_line("POST"@, path)] + headers, rest);
    lemma_methods();
    lemma_files_request("POST"@, path, headers, rest);
    lemma_padding_stripped(body, pad);
    assert(method_of(header_lines(text)[0]) == Some(HttpMethod::POST));
}

/// The route of a download.
proof fn lemma_download_route(
    path: Seq<char>,
    directory: Seq<char>,
    headers: Seq<Seq<char>>,
    pad: nat,
)
    requires
        "/files"@.is_prefix_of(path),
        !path.contains(' '),
        line_break_free(path),
        header_lines_ok(headers),
        pad >= 1,
    ensures
        route(
            request_text(seq![request_line("GET"@, path)] + headers, padding(pad)),
            Some(directory),
        ) == Ok::<Plan, RequestError>(Plan::ReadFile(directory + file_name(path))),
{
    let text = request_text(seq![request_line("GET"@, path)] + headers, padding(pad));
    lemma_methods();
    lemma_padding_lines(pad);
    lemma_files_request("GET"@, path, headers, padding(pad));
    assert(method_of(header_lines(text)[0]) == Some(HttpMethod::GET));
}

/// Upload and download. A `POST` request for a path under `/files` with
/// the body `body` asks to write exactly `body` to the file that the path
/// names in `directory`, and a `GET` request for the same path asks to read
/// that same file. Where the read gives back what was written, the download
/// is answered with status 200, the body `body` as it stands, and its
/// length in bytes. This holds of every path without a space and without a
/// line ending and of every `body` that does not end in a NUL character,
/// where something other than line endings stands behind the blank line of
/// each request (as it does where the request does not fill the buffer).
pub proof fn law_upload_then_download(
    path: Seq<char>,
    body: Seq<char>,
    directory: Seq<char>,
    post_headers: Seq<Seq<char>>,
    get_headers: Seq<Seq<char>>,
    pad_post: nat,
    pad_get: nat,
)
    requires
        "/files"@.is_prefix_of(path),
        !path.contains(' '),
        line_break_free(path),
        body.len() == 0 || body.last() != '\0',
        header_lines_ok(post_headers),
        header_lines_ok(get_headers),
        has_text(body + padding(pad_post)),
        pad_get >= 1,
    ensures
        dispatch(
            encode_utf8(
                request_text(
                    seq![request_line("POST"@, path)] + post_headers,
                    body + padding(pad_post),
                ),
            ),
            Some(directory),
        ) == Ok::<Plan, RequestError>(Plan::WriteFile(directory + file_name(path), body)),
        dispatch(
            encode_utf8(
                request_text(seq![request_line("GET"@, path)] + get_headers, padding(pad_get)),
            ),
            Some(directory),
        ) == Ok::<Plan, RequestError>(Plan::ReadFile(directory + file_name(path))),
        response_of(read_outcome(Some(body))) == OK_200@ + CONTENT_TYPE_OCTET@
            + content_length_label() + decimal(byte_len(body)) + section_end() + body + crlf()
            + crlf(),
{
    lemma_upload_route(path, body, directory, post_headers, pad_post);
    law_dispatch_of_text(
        request_text(seq![request_line("POST"@, path)] + post_headers, body + padding(pad_post)),
        Some(directory),
    );
    lemma_download_route(path, directory, get_headers, pad_get);
    law_dispatch_of_text(
        request_text(seq![request_line("GET"@, path)] + get_headers, padding(pad_get)),
        Some(directory),
    );
}

} // verus!

use http_server::request::BUFFER_SIZE;
use http_server::response::RouteOutcome;
use http_server::error::RequestError;
use http_server::router::{
    file_read_outcome, file_write_outcome, handle_incoming_request, route_request, Step,
};

/// The read buffer after `request` was read into it.
fn read_into_buffer(request: &[u8]) -> Vec<u8> {
    let mut buf = vec![0u8; BUFFER_SIZE];
    buf[..request.len()].copy_from_slice(request);
    buf
}

fn handle(request: &[u8], directory: Option<&str>) -> Result<Step, RequestError> {
    handle_incoming_request(&read_into_buffer(request), &directory.map(|d| d.to_string()))
}

/// The response to a request that needs no file.
fn respond(request: &[u8]) -> String {
    match handle(request, None) {
        Ok(Step::Done(outcome)) => outcome.response(),
        other => panic!("no outcome: {:?}", other),
    }
}

/// A directory of files held in memory, and a server in front of it.
fn serve(files: &mut Vec<(String, String)>, request: &[u8]) -> String {
    let outcome = match handle(request, Some("/tmp/data/")) {
        Ok(Step::Done(outcome)) => outcome,
        Ok(Step::ReadFile(path)) => file_read_outcome(
            files.iter().find(|(name, _)| *name == path).map(|(_, data)| data.clone()),
        ),
        Ok(Step::WriteFile(path, body)) => {
            files.retain(|(name, _)| *name != path);
            files.push((path, body));
            file_write_outcome(true)
        }
        Err(e) => panic!("no outcome: {:?}", e),
    };
    outcome.response()
}

#[test]
fn root_is_ok_with_empty_body() {
    assert_eq!(respond(b"GET / HTTP/1.1\r\n\r\n"), "HTTP/1.1 200 OK\r\n\r\n");
    assert_eq!(handle(b"GET / HTTP/1.1\r\n\r\n", None), Ok(Step::Done(RouteOutcome::RootOk)));
}

#[test]
fn unknown_path_is_not_found() {
    assert_eq!(
        respond(b"GET /does-not-exist HTTP/1.1\r\n\r\n"),
        "HTTP/1.1 404 NOT FOUND\r\n\r\n"
    );
    assert_eq!(
        handle(b"GET /does-not-exist HTTP/1.1\r\n\r\n", None),
        Ok(Step::Done(RouteOutcome::NotFound))
    );
}

#[test]
fn echo_answers_with_the_rest_of_the_path() {
    assert_eq!(
        respond(b"GET /echo/abc HTTP/1.1\r\n\r\n"),
        "HTTP/1.1 200 OK\r\nContent-Type: text/plain\r\nContent-Length: 3\r\n\r\nabc\r\n\r\n"
    );
    assert_eq!(
        handle(b"GET /echo/a/b?c=%20d HTTP/1.1\r\nHost: x\r\n\r\n", None),
        Ok(Step::Done(RouteOutcome::EchoOk("a/b?c=%20d".to_string())))
    );
}

#[test]
fn echo_counts_the_bytes_of_its_body() {
    assert_eq!(
        respond("GET /echo/gr\u{fc}\u{df}e HTTP/1.1\r\n\r\n".as_bytes()),
        "HTTP/1.1 200 OK\r\nContent-Type: text/plain\r\nContent-Length: 7\r\n\r\ngr\u{fc}\u{df}e\r\n\r\n"
    );
}

#[test]
fn echo_of_nothing() {
    assert_eq!(
        respond(b"GET /echo/ HTTP/1.1\r\n\r\n"),
        "HTTP/1.1 200 OK\r\nContent-Type: text/plain\r\nContent-Length: 0\r\n\r\n\r\n\r\n"
    );
}

#[test]
fn echo_needs_its_slash() {
    assert_eq!(handle(b"GET /echo HTTP/1.1\r\n\r\n", None), Ok(Step::Done(RouteOutcome::NotFound)));
    assert_eq!(
        handle(b"GET /echoes/abc HTTP/1.1\r\n\r\n", None),
        Ok(Step::Done(RouteOutcome::NotFound))
    );
}

#[test]
fn root_is_an_exact_match() {
    assert_eq!(handle(b"GET // HTTP/1.1\r\n\r\n", None), Ok(Step::Done(RouteOutcome::NotFound)));
    assert_eq!(handle(b"GET /? HTTP/1.1\r\n\r\n", None), Ok(Step::Done(RouteOutcome::NotFound)));
}

#[test]
fn routes_do_not_look_at_the_method() {
    assert_eq!(handle(b"DELETE / HTTP/1.1\r\n\r\n", None), Ok(Step::Done(RouteOutcome::RootOk)));
    assert_eq!(
        handle(b"PUT /echo/x HTTP/1.1\r\n\r\n", None),
        Ok(Step::Done(RouteOutcome::EchoOk("x".to_string())))
    );
}

#[test]
fn user_agent_answers_with_the_header() {
    assert_eq!(
        respond(b"GET /user-agent HTTP/1.1\r\nUser-Agent: foo/1.0\r\n\r\n"),
        "HTTP/1.1 200 OK\r\nContent-Type: text/plain\r\nContent-Length: 7\r\n\r\nfoo/1.0\r\n\r\n"
    );
}

#[test]
fn user_agent_takes_the_last_header_of_that_name() {
    assert_eq!(
        handle(
            b"GET /user-agent/x HTTP/1.1\r\nUser-Agent: a\r\nHost: h\r\nUser-Agent:  b c \r\n\r\n",
            None
        ),
        Ok(Step::Done(RouteOutcome::UserAgentOk("b c".to_string())))
    );
}

#[test]
fn user_agent_header_is_case_sensitive() {
    assert_eq!(
        handle(b"GET /user-agent HTTP/1.1\r\nuser-agent: foo/1.0\r\n\r\n", None),
        Err(RequestError::MissingHeader)
    );
    assert_eq!(
        handle(b"GET /user-agent HTTP/1.1\r\nUSER-AGENT: foo/1.0\r\n\r\n", None),
        Err(RequestError::MissingHeader)
    );
}

#[test]
fn user_agent_without_the_header() {
    assert_eq!(
        handle(b"GET /user-agent HTTP/1.1\r\nHost: x\r\n\r\n", None),
        Err(RequestError::MissingHeader)
    );
}

#[test]
fn user_agent_header_in_the_last_line_of_a_full_buffer_is_lost() {
    let directory = None;
    assert_eq!(
        handle_incoming_request(
            b"GET /user-agent HTTP/1.1\r\nUser-Agent: foo/1.0\r\n\r\n",
            &directory
        ),
        Err(RequestError::MissingHeader)
    );
}

#[test]
fn file_get_asks_to_read_the_file() {
    assert_eq!(
        handle(b"GET /files/test.txt HTTP/1.1\r\n\r\n", Some("/tmp/data/")),
        Ok(Step::ReadFile("/tmp/data/test.txt".to_string()))
    );
}

#[test]
fn file_path_joins_directory_and_last_segment() {
    assert_eq!(
        handle(b"GET /files/a/b/c.txt HTTP/1.1\r\n\r\n", Some("dir")),
        Ok(Step::ReadFile("dirc.txt".to_string()))
    );
    assert_eq!(
        handle(b"GET /files HTTP/1.1\r\n\r\n", Some("/srv/")),
        Ok(Step::ReadFile("/srv/files".to_string()))
    );
    assert_eq!(
        handle(b"GET /files/ HTTP/1.1\r\n\r\n", Some("/srv/")),
        Ok(Step::ReadFile("/srv/".to_string()))
    );
    assert_eq!(
        handle(b"GET /files/.. HTTP/1.1\r\n\r\n", Some("/srv/")),
        Ok(Step::ReadFile("/srv/..".to_string()))
    );
}

#[test]
fn file_post_asks_to_write_the_body() {
    assert_eq!(
        handle(
            b"POST /files/test.txt HTTP/1.1\r\nContent-Length: 5\r\n\r\nhello",
            Some("/tmp/data/")
        ),
        Ok(Step::WriteFile("/tmp/data/test.txt".to_string(), "hello".to_string()))
    );
}

#[test]
fn file_post_then_get_gives_the_body_back() {
    let mut files = Vec::new();
    assert_eq!(
        serve(&mut files, b"POST /files/test.txt HTTP/1.1\r\n\r\nhello"),
        "HTTP/1.1 201 OK\r\n\r\n"
    );
    assert_eq!(
        serve(&mut files, b"GET /files/test.txt HTTP/1.1\r\n\r\n"),
        "HTTP/1.1 200 OK\r\nContent-Type: application/octet-stream\r\nContent-Length: 5\r\n\r\nhello\r\n\r\n"
    );
}

#[test]
fn file_post_truncates() {
    let mut files = Vec::new();
    serve(&mut files, b"POST /files/a HTTP/1.1\r\n\r\na long first body");
    serve(&mut files, b"POST /files/a HTTP/1.1\r\n\r\nshort");
    assert_eq!(files, vec![("/tmp/data/a".to_string(), "short".to_string())]);
}

#[test]
fn file_get_of_a_missing_file_is_not_found() {
    let mut files = Vec::new();
    assert_eq!(
        serve(&mut files, b"GET /files/missing.txt HTTP/1.1\r\n\r\n"),
        "HTTP/1.1 404 NOT FOUND\r\n\r\n"
    );
}

#[test]
fn file_post_that_fails_is_not_found() {
    assert_eq!(file_write_outcome(false).response(), "HTTP/1.1 404 NOT FOUND\r\n\r\n");
}

#[test]
fn round_trip_keeps_embedded_nul() {
    let mut files = Vec::new();
    let body = "a\0b\r\n\r\n\u{e9}\0\0c";
    let mut upload = b"POST /files/blob HTTP/1.1\r\n\r\n".to_vec();
    upload.extend_from_slice(body.as_bytes());
    serve(&mut files, &upload);
    assert_eq!(
        serve(&mut files, b"GET /files/blob HTTP/1.1\r\n\r\n"),
        format!(
            "HTTP/1.1 200 OK\r\nContent-Type: application/octet-stream\r\nContent-Length: 12\r\n\r\n{}\r\n\r\n",
            body
        )
    );
}

#[test]
fn round_trip_loses_trailing_nul() {
    let mut files = Vec::new();
    serve(&mut files, b"POST /files/blob HTTP/1.1\r\n\r\nab\0");
    assert_eq!(files, vec![("/tmp/data/blob".to_string(), "ab".to_string())]);
}

#[test]
fn buffer_that_is_not_utf8() {
    assert_eq!(handle(b"GET /\xff HTTP/1.1\r\n\r\n", None), Err(RequestError::MalformedUtf8));
    assert_eq!(handle(b"\xc3", None), Err(RequestError::MalformedUtf8));
    assert_eq!(handle(b"\xed\xa0\x80", None), Err(RequestError::MalformedUtf8));
    assert_eq!(handle(b"\xc0\xaf", None), Err(RequestError::MalformedUtf8));
}

#[test]
fn request_without_request_line() {
    assert_eq!(handle(b"", None), Err(RequestError::MalformedRequestLine));
    assert_eq!(handle(b"\r\n\r\n", None), Err(RequestError::MalformedRequestLine));
    let directory = None;
    assert_eq!(
        handle_incoming_request(b"GET / HTTP/1.1\r\n\r\n", &directory),
        Err(RequestError::MalformedRequestLine)
    );
}

#[test]
fn request_line_with_one_token() {
    assert_eq!(handle(b"GET\r\n\r\n", None), Err(RequestError::MalformedRequestLine));
    assert_eq!(handle(b"GET/HTTP/1.1\r\n\r\n", None), Err(RequestError::MalformedRequestLine));
}

#[test]
fn files_without_directory() {
    assert_eq!(
        handle(b"GET /files/a HTTP/1.1\r\n\r\n", None),
        Err(RequestError::MissingDirectory)
    );
    assert_eq!(
        handle(b"PUT /files/a HTTP/1.1\r\n\r\n", None),
        Err(RequestError::MissingDirectory)
    );
}

#[test]
fn files_with_another_method() {
    assert_eq!(
        handle(b"PUT /files/a HTTP/1.1\r\n\r\n", Some("/tmp/")),
        Err(RequestError::UnsupportedMethod)
    );
    assert_eq!(
        handle(b"get /files/a HTTP/1.1\r\n\r\n", Some("/tmp/")),
        Err(RequestError::UnsupportedMethod)
    );
}

#[test]
fn upload_without_blank_line() {
    assert_eq!(
        handle(b"POST /files/a HTTP/1.1\r\nContent-Length: 5\r\nhello", Some("/tmp/")),
        Err(RequestError::MissingBody)
    );
}

#[test]
fn route_request_works_on_text() {
    assert_eq!(
        route_request("GET /echo/hi HTTP/1.1\r\n\r\n\0", &None),
        Ok(Step::Done(RouteOutcome::EchoOk("hi".to_string())))
    );
    assert_eq!(
        route_request("GET /files/f HTTP/1.1\r\n\r\n\0", &Some("d/".to_string())),
        Ok(Step::ReadFile("d/f".to_string()))
    );
    assert_eq!(route_request("", &None), Err(RequestError::MalformedRequestLine));
}

use http_server::decimal::append_decimal;
use http_server::response::{
    response_with_data, RouteOutcome, CONTENT_TYPE_OCTET, CONTENT_TYPE_PLAIN, NOT_FOUND_404,
    OK_200, OK_201,
};
use http_server::router::{file_read_outcome, file_write_outcome};

fn decimal(n: usize) -> String {
    let mut out = String::new();
    append_decimal(&mut out, n);
    out
}

#[test]
fn status_and_content_type_lines() {
    assert_eq!(OK_200, "HTTP/1.1 200 OK\r\n");
    assert_eq!(OK_201, "HTTP/1.1 201 OK\r\n");
    assert_eq!(NOT_FOUND_404, "HTTP/1.1 404 NOT FOUND\r\n");
    assert_eq!(CONTENT_TYPE_PLAIN, "Content-Type: text/plain\r\n");
    assert_eq!(CONTENT_TYPE_OCTET, "Content-Type: application/octet-stream\r\n");
}

#[test]
fn decimal_notation() {
    assert_eq!(decimal(0), "0");
    assert_eq!(decimal(7), "7");
    assert_eq!(decimal(9), "9");
    assert_eq!(decimal(10), "10");
    assert_eq!(decimal(305), "305");
    assert_eq!(decimal(1024), "1024");
    assert_eq!(decimal(1234567890), "1234567890");
    assert_eq!(decimal(usize::MAX), usize::MAX.to_string());
}

#[test]
fn append_decimal_keeps_what_is_there() {
    let mut out = "Content-Length: ".to_string();
    append_decimal(&mut out, 42);
    assert_eq!(out, "Content-Length: 42");
}

#[test]
fn response_with_data_in_wire_format() {
    assert_eq!(
        response_with_data(OK_200, CONTENT_TYPE_PLAIN, "abc"),
        "HTTP/1.1 200 OK\r\nContent-Type: text/plain\r\nContent-Length: 3\r\n\r\nabc\r\n"
    );
}

#[test]
fn response_with_data_of_an_empty_body() {
    assert_eq!(
        response_with_data(OK_200, CONTENT_TYPE_OCTET, ""),
        "HTTP/1.1 200 OK\r\nContent-Type: application/octet-stream\r\nContent-Length: 0\r\n\r\n\r\n"
    );
}

#[test]
fn response_with_data_counts_bytes() {
    // Two characters, five bytes.
    assert_eq!(
        response_with_data(OK_200, CONTENT_TYPE_PLAIN, "\u{e9}\u{65e5}"),
        "HTTP/1.1 200 OK\r\nContent-Type: text/plain\r\nContent-Length: 5\r\n\r\n\u{e9}\u{65e5}\r\n"
    );
    let long = "x".repeat(120);
    assert_eq!(
        response_with_data(OK_200, CONTENT_TYPE_PLAIN, &long),
        format!(
            "HTTP/1.1 200 OK\r\nContent-Type: text/plain\r\nContent-Length: 120\r\n\r\n{}\r\n",
            long
        )
    );
}

#[test]
fn response_with_data_joins_what_it_is_given() {
    assert_eq!(
        response_with_data("S", "T", "D"),
        "STContent-Length: 1\r\n\r\nD\r\n"
    );
}

#[test]
fn response_of_root() {
    assert_eq!(RouteOutcome::RootOk.response(), "HTTP/1.1 200 OK\r\n\r\n");
}

#[test]
fn response_of_echo() {
    assert_eq!(
        RouteOutcome::EchoOk("abc".to_string()).response(),
        "HTTP/1.1 200 OK\r\nContent-Type: text/plain\r\nContent-Length: 3\r\n\r\nabc\r\n\r\n"
    );
}

#[test]
fn response_of_user_agent() {
    assert_eq!(
        RouteOutcome::UserAgentOk("foo/1.0".to_string()).response(),
        "HTTP/1.1 200 OK\r\nContent-Type: text/plain\r\nContent-Length: 7\r\n\r\nfoo/1.0\r\n\r\n"
    );
}

#[test]
fn response_of_file_get() {
    assert_eq!(
        RouteOutcome::FileGetOk("hello".to_string()).response(),
        "HTTP/1.1 200 OK\r\nContent-Type: application/octet-stream\r\nContent-Length: 5\r\n\r\nhello\r\n\r\n"
    );
}

#[test]
fn response_of_file_post() {
    assert_eq!(RouteOutcome::FilePostCreated.response(), "HTTP/1.1 201 OK\r\n\r\n");
}

#[test]
fn response_of_not_found() {
    assert_eq!(RouteOutcome::NotFound.response(), "HTTP/1.1 404 NOT FOUND\r\n\r\n");
    assert_eq!(RouteOutcome::FileGetNotFound.response(), "HTTP/1.1 404 NOT FOUND\r\n\r\n");
    assert_eq!(RouteOutcome::FilePostNotFound.response(), "HTTP/1.1 404 NOT FOUND\r\n\r\n");
}

#[test]
fn file_read_outcome_of_each_result() {
    assert_eq!(
        file_read_outcome(Some("data".to_string())),
        RouteOutcome::FileGetOk("data".to_string())
    );
    assert_eq!(file_read_outcome(Some(String::new())), RouteOutcome::FileGetOk(String::new()));
    assert_eq!(file_read_outcome(None), RouteOutcome::FileGetNotFound);
}

#[test]
fn file_write_outcome_of_each_result() {
    assert_eq!(file_write_outcome(true), RouteOutcome::FilePostCreated);
    assert_eq!(file_write_outcome(false), RouteOutcome::FilePostNotFound);
}

//! The handler contract types, the pool construction rule, and parser
//! quirks worth pinning down.

use http_server::handler::{HandlerError, IntoResponse};
use http_server::pool::validate_pool_size;
use http_server::request::{ReqError, Request};
use http_server::response::Response;
use http_server::status::Status;

#[test]
fn pool_needs_at_least_one_worker() {
    assert!(validate_pool_size(0).is_err());
    assert!(validate_pool_size(1).is_ok());
    assert!(validate_pool_size(5).is_ok());
}

#[test]
fn response_into_response_is_identity() {
    let res = Response::default().status(Status::Created).body(b"x".to_vec());
    let expected = res.to_bytes();
    let round = res.into_response().unwrap();
    assert_eq!(round.to_bytes(), expected);
}

#[test]
fn handler_error_carries_its_message() {
    let e = HandlerError { msg: "boom".to_string() };
    assert_eq!(e.msg, "boom");
}

#[test]
fn parse_error_carries_a_message() {
    let lines: Vec<String> = vec!["nonsense".to_string()];
    let e: ReqError = Request::parse_head(&lines).unwrap_err();
    assert!(!e.msg.is_empty());
}

#[test]
fn accept_header_matches_first_line_containing_its_name() {
    let lines: Vec<String> = vec![
        "GET /x HTTP/1.1\r\n".to_string(),
        "Accept-Encoding: gzip\r\n".to_string(),
        "Accept: text/html\r\n".to_string(),
    ];
    let req = Request::parse_head(&lines).unwrap();
    assert_eq!(req.accept, "gzip");
    let lines: Vec<String> = vec![
        "GET /x HTTP/1.1\r\n".to_string(),
        "Accept: text/html\r\n".to_string(),
        "Accept-Encoding: gzip\r\n".to_string(),
    ];
    let req = Request::parse_head(&lines).unwrap();
    assert_eq!(req.accept, "text/html");
    assert_eq!(req.get_encoding(), http_server::encoding::EncodingType::Gzip);
}

#[test]
fn header_value_is_last_whitespace_token() {
    let lines: Vec<String> = vec![
        "GET /x HTTP/1.1\r\n".to_string(),
        "User-Agent: curl 8.0\r\n".to_string(),
    ];
    let req = Request::parse_head(&lines).unwrap();
    assert_eq!(req.user_agent, "8.0");
}

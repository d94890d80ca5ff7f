//! Request-parser behavior: request line, headers, encodings, body.

use http_server::encoding::EncodingType;
use http_server::method::Method;
use http_server::request::Request;

fn lines(raw: &[&str]) -> Vec<String> {
    raw.iter().map(|s| s.to_string()).collect()
}

#[test]
fn parses_request_line_path_and_method() {
    let req = Request::parse_head(&lines(&["GET /echo/hello HTTP/1.1\r\n"])).unwrap();
    assert_eq!(req.method, Method::Get);
    assert_eq!(req.path, "echo/hello");
    assert_eq!(req.query, "none");
    assert_eq!(req.host, "");
    assert_eq!(req.content_length, 0);
    assert_eq!(req.body, "");
}

#[test]
fn parses_method_case_insensitively_from_request_line() {
    let req = Request::parse_head(&lines(&["pOsT /files HTTP/1.1\r\n"])).unwrap();
    assert_eq!(req.method, Method::Post);
    assert_eq!(req.path, "files");
}

#[test]
fn root_path_is_stripped_to_empty() {
    let req = Request::parse_head(&lines(&["GET / HTTP/1.1\r\n"])).unwrap();
    assert_eq!(req.path, "");
}

#[test]
fn query_value_is_first_pairs_value() {
    let req = Request::parse_head(&lines(&["GET /search?q=verus HTTP/1.1\r\n"])).unwrap();
    assert_eq!(req.path, "search");
    assert_eq!(req.query, "verus");
}

#[test]
fn query_without_value_reads_as_sentinel() {
    let req = Request::parse_head(&lines(&["GET /search?q HTTP/1.1\r\n"])).unwrap();
    assert_eq!(req.query, "none");
    let req = Request::parse_head(&lines(&["GET /search? HTTP/1.1\r\n"])).unwrap();
    assert_eq!(req.query, "none");
}

#[test]
fn query_value_stops_at_second_equals_sign() {
    let req = Request::parse_head(&lines(&["GET /a?x=1=2 HTTP/1.1\r\n"])).unwrap();
    assert_eq!(req.query, "1");
    let req = Request::parse_head(&lines(&["GET /a?b?c=d HTTP/1.1\r\n"])).unwrap();
    assert_eq!(req.query, "d");
    assert_eq!(req.path, "a");
}

#[test]
fn recognized_headers_take_last_token_of_first_matching_line() {
    let req = Request::parse_head(&lines(&[
        "GET /user-agent HTTP/1.1\r\n",
        "Host: localhost:4221\r\n",
        "User-Agent: foobar/1.2.3\r\n",
        "Content-Type: text/plain\r\n",
    ]))
    .unwrap();
    assert_eq!(req.host, "localhost:4221");
    assert_eq!(req.user_agent, "foobar/1.2.3");
    assert_eq!(req.content_type, "text/plain");
}

#[test]
fn missing_headers_default_to_empty() {
    let req = Request::parse_head(&lines(&["GET / HTTP/1.1\r\n"])).unwrap();
    assert_eq!(req.host, "");
    assert_eq!(req.user_agent, "");
    assert_eq!(req.accept, "");
    assert_eq!(req.content_type, "");
    assert!(req.accept_encoding.is_empty());
}

#[test]
fn content_length_parses_as_number() {
    let req = Request::parse_head(&lines(&[
        "POST /files/x HTTP/1.1\r\n",
        "Content-Length: 23\r\n",
    ]))
    .unwrap();
    assert_eq!(req.content_length, 23);
}

#[test]
fn unparsable_content_length_defaults_to_zero() {
    let req = Request::parse_head(&lines(&[
        "POST /files/x HTTP/1.1\r\n",
        "Content-Length: many\r\n",
    ]))
    .unwrap();
    assert_eq!(req.content_length, 0);
    let req = Request::parse_head(&lines(&[
        "POST /files/x HTTP/1.1\r\n",
        "Content-Length: 99999999999999999999999999\r\n",
    ]))
    .unwrap();
    assert_eq!(req.content_length, 0);
}

#[test]
fn accept_encoding_keeps_order_and_duplicates() {
    let req = Request::parse_head(&lines(&[
        "GET /echo/x HTTP/1.1\r\n",
        "Accept-Encoding: br, gzip, deflate, gzip\r\n",
    ]))
    .unwrap();
    assert_eq!(
        req.accept_encoding,
        vec![
            EncodingType::Identity,
            EncodingType::Gzip,
            EncodingType::Identity,
            EncodingType::Gzip,
        ]
    );
}

#[test]
fn get_encoding_prefers_gzip_when_announced() {
    let req = Request::parse_head(&lines(&[
        "GET /echo/x HTTP/1.1\r\n",
        "Accept-Encoding: br, gzip\r\n",
    ]))
    .unwrap();
    assert_eq!(req.get_encoding(), EncodingType::Gzip);
    let req = Request::parse_head(&lines(&[
        "GET /echo/x HTTP/1.1\r\n",
        "Accept-Encoding: identity\r\n",
    ]))
    .unwrap();
    assert_eq!(req.get_encoding(), EncodingType::Identity);
}

#[test]
fn empty_line_list_is_an_error() {
    assert!(Request::parse_head(&Vec::new()).is_err());
}

#[test]
fn wrong_token_count_is_an_error() {
    assert!(Request::parse_head(&lines(&["GET /x\r\n"])).is_err());
    assert!(Request::parse_head(&lines(&["GET  /x HTTP/1.1\r\n"])).is_err());
    assert!(Request::parse_head(&lines(&["GET /a b HTTP/1.1\r\n"])).is_err());
}

#[test]
fn unknown_method_is_an_error() {
    assert!(Request::parse_head(&lines(&["BREW /coffee HTTP/1.1\r\n"])).is_err());
}

#[test]
fn body_attaches_and_decodes_utf8() {
    let req = Request::parse_head(&lines(&[
        "POST /files/x HTTP/1.1\r\n",
        "Content-Length: 6\r\n",
    ]))
    .unwrap();
    let req = req.attach_body("h\u{e9}llo".as_bytes().to_vec()).unwrap();
    assert_eq!(req.body, "h\u{e9}llo");
    assert_eq!(req.content_length, 6);
}

#[test]
fn invalid_utf8_body_is_an_error() {
    let req = Request::parse_head(&lines(&["POST /files/x HTTP/1.1\r\n"])).unwrap();
    assert!(req.attach_body(vec![0xff, 0xfe, 0x41]).is_err());
}

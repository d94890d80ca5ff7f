//! Routing: key extraction, registration, dispatch, composition, and the
//! not-found answer.

use std::io::Read;

use http_server::handler::HandlerError;
use http_server::method::Method;
use http_server::request::Request;
use http_server::response::Response;
use http_server::router::{dispatch, not_found_bytes, route_key, Router};
use http_server::routes::Routes;
use http_server::status::Status;

fn request_for(line: &str) -> Request {
    let lines: Vec<String> = vec![line.to_string()];
    Request::parse_head(&lines).unwrap()
}

#[test]
fn route_key_takes_first_nonempty_segment() {
    assert_eq!(route_key("files/foo"), "files");
    assert_eq!(route_key("/files/foo"), "files");
    assert_eq!(route_key("//files"), "files");
    assert_eq!(route_key("echo"), "echo");
}

#[test]
fn route_key_of_bare_path_is_slash() {
    assert_eq!(route_key(""), "/");
    assert_eq!(route_key("/"), "/");
    assert_eq!(route_key("///"), "/");
}

#[test]
fn dispatch_finds_registered_handler() {
    let mut routes: Routes<u32> = Routes::new();
    routes.insert("echo".to_string(), Method::Get, 11);
    routes.insert("files".to_string(), Method::Get, 22);
    routes.insert("files".to_string(), Method::Post, 33);
    let req = request_for("GET /echo/hello HTTP/1.1\r\n");
    assert_eq!(dispatch(&routes, &req), Some(&11));
    let req = request_for("GET /files/a.txt HTTP/1.1\r\n");
    assert_eq!(dispatch(&routes, &req), Some(&22));
    let req = request_for("POST /files/a.txt HTTP/1.1\r\n");
    assert_eq!(dispatch(&routes, &req), Some(&33));
}

#[test]
fn dispatch_misses_unknown_segment_and_method() {
    let mut routes: Routes<u32> = Routes::new();
    routes.insert("files".to_string(), Method::Get, 1);
    let req = request_for("GET /nonexistent HTTP/1.1\r\n");
    assert_eq!(dispatch(&routes, &req), None);
    let req = request_for("DELETE /files/a HTTP/1.1\r\n");
    assert_eq!(dispatch(&routes, &req), None);
}

#[test]
fn dispatch_reaches_root_route() {
    let mut routes: Routes<u32> = Routes::new();
    routes.insert("/".to_string(), Method::Get, 9);
    let req = request_for("GET / HTTP/1.1\r\n");
    assert_eq!(dispatch(&routes, &req), Some(&9));
}

#[test]
fn second_registration_for_same_pair_wins() {
    let mut routes: Routes<u32> = Routes::new();
    routes.insert("echo".to_string(), Method::Get, 1);
    routes.insert("echo".to_string(), Method::Get, 2);
    let req = request_for("GET /echo HTTP/1.1\r\n");
    assert_eq!(dispatch(&routes, &req), Some(&2));
}

#[test]
fn not_found_bytes_carry_bare_status_line() {
    assert_eq!(
        not_found_bytes(),
        b"HTTP/1.1 404 Not Found\r\n\r\n".to_vec()
    );
}

#[test]
fn router_registers_under_composed_path() {
    let router: Router<u32> = Router::new("files").get("/list", 5);
    let routes = router.into_routes();
    assert_eq!(
        routes.resolve(&"files/list".to_string(), Method::Get),
        Some(&5)
    );
}

#[test]
fn router_methods_register_their_verbs() {
    let router: Router<u32> = Router::new("")
        .get("a", 1)
        .post("a", 2)
        .put("a", 3)
        .patch("a", 4)
        .delete("a", 5);
    let routes = router.into_routes();
    let key = "/a".to_string();
    assert_eq!(routes.resolve(&key, Method::Get), Some(&1));
    assert_eq!(routes.resolve(&key, Method::Post), Some(&2));
    assert_eq!(routes.resolve(&key, Method::Put), Some(&3));
    assert_eq!(routes.resolve(&key, Method::Patch), Some(&4));
    assert_eq!(routes.resolve(&key, Method::Delete), Some(&5));
}

#[test]
fn sub_router_entries_are_prefixed_by_base() {
    let sub: Router<u32> = Router::new("v1").get("users", 7).post("users", 8);
    let router: Router<u32> = Router::new("api").route(sub);
    let routes = router.into_routes();
    assert_eq!(
        routes.resolve(&"api/v1/users".to_string(), Method::Get),
        Some(&7)
    );
    assert_eq!(
        routes.resolve(&"api/v1/users".to_string(), Method::Post),
        Some(&8)
    );
    assert_eq!(routes.resolve(&"v1/users".to_string(), Method::Get), None);
}

#[test]
fn nested_sub_routers_compose_prefixes_level_by_level() {
    let inner: Router<u32> = Router::new("c").get("x", 1);
    let middle: Router<u32> = Router::new("b").route(inner);
    let outer: Router<u32> = Router::new("a").route(middle);
    let routes = outer.into_routes();
    assert_eq!(
        routes.resolve(&"a/b/c/x".to_string(), Method::Get),
        Some(&1)
    );
}

#[test]
fn later_sub_router_overrides_earlier_registration() {
    let sub: Router<u32> = Router::new("echo").get("", 2);
    let router: Router<u32> = Router::new("").get("echo", 1).route(sub);
    let routes = router.into_routes();
    assert_eq!(routes.resolve(&"/echo".to_string(), Method::Get), Some(&2));
}

#[test]
fn merge_appends_and_overrides() {
    let mut a: Routes<u32> = Routes::new();
    a.insert("files".to_string(), Method::Get, 1);
    a.insert("echo".to_string(), Method::Get, 10);
    let mut b: Routes<u32> = Routes::new();
    b.insert("files".to_string(), Method::Get, 2);
    b.insert("agent".to_string(), Method::Get, 3);
    a.merge(b);
    assert_eq!(a.len(), 4);
    assert_eq!(a.resolve(&"files".to_string(), Method::Get), Some(&2));
    assert_eq!(a.resolve(&"echo".to_string(), Method::Get), Some(&10));
    assert_eq!(a.resolve(&"agent".to_string(), Method::Get), Some(&3));
}

type TestHandler = fn(&Request, Response) -> Result<Response, HandlerError>;

fn echo_handler(req: &Request, res: Response) -> Result<Response, HandlerError> {
    let body = req.path.rsplit('/').next().unwrap_or("").as_bytes().to_vec();
    let encoding = req.get_encoding();
    let body = Response::encode_payload(body, &encoding);
    Ok(res.encoding_type(encoding).body(body))
}

fn user_agent_handler(req: &Request, res: Response) -> Result<Response, HandlerError> {
    Ok(res
        .status(Status::Okay)
        .body(req.user_agent.clone().into_bytes()))
}

#[test]
fn dispatched_handler_runs_exactly_the_registered_one() {
    let mut routes: Routes<TestHandler> = Routes::new();
    routes.insert("echo".to_string(), Method::Get, echo_handler);
    routes.insert("user-agent".to_string(), Method::Get, user_agent_handler);
    let lines: Vec<String> = vec![
        "GET /user-agent HTTP/1.1\r\n".to_string(),
        "User-Agent: foobar/1.2.3\r\n".to_string(),
    ];
    let req = Request::parse_head(&lines).unwrap();
    let handler = dispatch(&routes, &req).expect("route registered");
    let res = handler(&req, Response::default()).unwrap();
    let bytes = res.to_bytes();
    assert_eq!(
        bytes,
        b"HTTP/1.1 200 OK\r\nContent-Type: text/plain\r\nContent-Length: 12\r\nContent-Encoding: \r\n\r\nfoobar/1.2.3".to_vec()
    );
}

#[test]
fn echo_scenario_with_identity_encoding() {
    let mut routes: Routes<TestHandler> = Routes::new();
    routes.insert("echo".to_string(), Method::Get, echo_handler);
    let lines: Vec<String> = vec![
        "GET /echo/hello HTTP/1.1\r\n".to_string(),
        "Accept-Encoding: identity\r\n".to_string(),
    ];
    let req = Request::parse_head(&lines).unwrap();
    let handler = dispatch(&routes, &req).expect("route registered");
    let res = handler(&req, Response::default()).unwrap();
    assert_eq!(
        res.to_bytes(),
        b"HTTP/1.1 200 OK\r\nContent-Type: text/plain\r\nContent-Length: 5\r\nContent-Encoding: \r\n\r\nhello".to_vec()
    );
}

#[test]
fn echo_scenario_with_gzip_encoding() {
    let mut routes: Routes<TestHandler> = Routes::new();
    routes.insert("echo".to_string(), Method::Get, echo_handler);
    let lines: Vec<String> = vec![
        "GET /echo/hello HTTP/1.1\r\n".to_string(),
        "Accept-Encoding: gzip\r\n".to_string(),
    ];
    let req = Request::parse_head(&lines).unwrap();
    let handler = dispatch(&routes, &req).expect("route registered");
    let res = handler(&req, Response::default()).unwrap();
    let bytes = res.to_bytes();
    let expected_body = Response::encode_payload(b"hello".to_vec(), &http_server::encoding::EncodingType::Gzip);
    let expected_head = format!(
        "HTTP/1.1 200 OK\r\nContent-Type: text/plain\r\nContent-Length: {}\r\nContent-Encoding: gzip\r\n\r\n",
        expected_body.len()
    );
    let mut expected = expected_head.into_bytes();
    expected.extend_from_slice(&expected_body);
    assert_eq!(bytes, expected);
    let mut plain = Vec::new();
    flate2::read::GzDecoder::new(&bytes[bytes.len() - expected_body.len()..])
        .read_to_end(&mut plain)
        .unwrap();
    assert_eq!(plain, b"hello".to_vec());
}

#[test]
fn unrouted_request_gets_404_answer() {
    let routes: Routes<TestHandler> = Routes::new();
    let req = request_for("GET /nonexistent HTTP/1.1\r\n");
    let answer = match dispatch(&routes, &req) {
        Some(_) => panic!("nothing is registered"),
        None => not_found_bytes(),
    };
    assert!(answer.starts_with(b"HTTP/1.1 404 Not Found"));
    assert_eq!(answer, b"HTTP/1.1 404 Not Found\r\n\r\n".to_vec());
}

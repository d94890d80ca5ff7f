//! Response building, payload encoding, and exact wire serialization.

use std::io::Read;

use http_server::content_type::ContentType;
use http_server::encoding::EncodingType;
use http_server::response::Response;
use http_server::status::Status;

#[test]
fn serializes_identity_echo_response_exactly() {
    let res = Response::default()
        .status(Status::Okay)
        .content_type(ContentType::TextPlain)
        .encoding_type(EncodingType::Identity)
        .body(b"hello".to_vec());
    let bytes = res.to_bytes();
    assert_eq!(
        bytes,
        b"HTTP/1.1 200 OK\r\nContent-Type: text/plain\r\nContent-Length: 5\r\nContent-Encoding: \r\n\r\nhello".to_vec()
    );
}

#[test]
fn serializes_default_response_with_empty_body() {
    let bytes = Response::default().to_bytes();
    assert_eq!(
        bytes,
        b"HTTP/1.1 200 OK\r\nContent-Type: text/plain\r\nContent-Length: 0\r\nContent-Encoding: \r\n\r\n".to_vec()
    );
}

#[test]
fn serializes_created_octet_stream_response() {
    let res = Response::from(
        Some(b"abc".to_vec()),
        ContentType::OctetStream,
        Status::Created,
        EncodingType::Identity,
    );
    let bytes = res.to_bytes();
    assert_eq!(
        bytes,
        b"HTTP/1.1 201 Created\r\nContent-Type: application/octet-stream\r\nContent-Length: 3\r\nContent-Encoding: \r\n\r\nabc".to_vec()
    );
}

#[test]
fn from_with_no_body_serializes_empty_body() {
    let res = Response::from(
        None,
        ContentType::Json,
        Status::Accepted,
        EncodingType::Identity,
    );
    let bytes = res.to_bytes();
    assert_eq!(
        bytes,
        b"HTTP/1.1 202 Accepted\r\nContent-Type: application/json\r\nContent-Length: 0\r\nContent-Encoding: \r\n\r\n".to_vec()
    );
}

#[test]
fn serializing_twice_yields_identical_bytes() {
    let res = Response::default()
        .status(Status::NotFound)
        .body(b"missing".to_vec());
    assert_eq!(res.to_bytes(), res.to_bytes());
    let gz = Response::default()
        .encoding_type(EncodingType::Gzip)
        .body(Response::encode_payload(b"hello".to_vec(), &EncodingType::Gzip));
    assert_eq!(gz.to_bytes(), gz.to_bytes());
}

#[test]
fn encode_payload_identity_returns_input_unchanged() {
    let data = b"some payload".to_vec();
    assert_eq!(
        Response::encode_payload(data.clone(), &EncodingType::Identity),
        data
    );
}

#[test]
fn encode_payload_gzip_changes_the_bytes() {
    let data = b"hello".to_vec();
    let packed = Response::encode_payload(data.clone(), &EncodingType::Gzip);
    assert_ne!(packed, data);
}

fn gunzip(data: &[u8]) -> Vec<u8> {
    let mut out = Vec::new();
    flate2::read::GzDecoder::new(data)
        .read_to_end(&mut out)
        .expect("valid gzip stream");
    out
}

#[test]
fn gzip_payload_round_trips_through_a_standard_reader() {
    for case in [
        &b""[..],
        &b"a"[..],
        &b"hello"[..],
        &b"aaaaaaaaaaaaaaaaaaaaaaaaaaaaaaaaaaaaaaaa"[..],
        &[0u8, 255, 1, 254, 2, 253][..],
    ] {
        let packed = Response::encode_payload(case.to_vec(), &EncodingType::Gzip);
        assert_eq!(gunzip(&packed), case.to_vec());
    }
}

#[test]
fn gzip_response_announces_compressed_length() {
    let body = Response::encode_payload(b"hello".to_vec(), &EncodingType::Gzip);
    let compressed_len = body.len();
    let res = Response::default()
        .encoding_type(EncodingType::Gzip)
        .body(body.clone());
    let bytes = res.to_bytes();
    let expected_head = format!(
        "HTTP/1.1 200 OK\r\nContent-Type: text/plain\r\nContent-Length: {}\r\nContent-Encoding: gzip\r\n\r\n",
        compressed_len
    );
    assert_eq!(&bytes[..expected_head.len()], expected_head.as_bytes());
    assert_eq!(&bytes[expected_head.len()..], &body[..]);
    assert_eq!(gunzip(&bytes[expected_head.len()..]), b"hello".to_vec());
}

#[test]
fn content_length_tracks_final_body_not_original() {
    let original = b"aaaaaaaaaaaaaaaaaaaaaaaaaaaaaaaaaaaaaaaaaaaaaaaaaa".to_vec();
    let packed = Response::encode_payload(original.clone(), &EncodingType::Gzip);
    let res = Response::default()
        .encoding_type(EncodingType::Gzip)
        .body(packed.clone());
    let bytes = res.to_bytes();
    let text = String::from_utf8_lossy(&bytes[..bytes.len() - packed.len()]).to_string();
    assert!(text.contains(&format!("Content-Length: {}\r\n", packed.len())));
    assert!(!text.contains(&format!("Content-Length: {}\r\n", original.len())));
}

#[test]
fn large_content_length_renders_in_decimal() {
    let body = vec![b'x'; 1234];
    let res = Response::default().body(body);
    let bytes = res.to_bytes();
    let text = String::from_utf8_lossy(&bytes).to_string();
    assert!(text.contains("Content-Length: 1234\r\n"));
}

//! The response builder and its exact wire serialization, including the
//! content-negotiated payload encoding step.

use vstd::prelude::*;
use vstd::string::StringExecFns;
use vstd::utf8::encode_utf8;
use crate::content_type::ContentType;
use crate::content_type::spec_content_type_text;
use crate::encoding::EncodingType;
use crate::encoding::spec_encoding_text;
use crate::status::Status;
use crate::status::spec_status_text;
use crate::text::spec_dec_chars;
use crate::text::usize_to_string;

verus! {

/// The abstract value of a [`Response`]: what the builder has accumulated
/// so far.
pub ghost struct ResponseModel {
    pub status: Status,
    pub content_type: ContentType,
    pub encoding_type: EncodingType,
    pub body: Option<Seq<u8>>,
}

/// A response under construction: status, content type, encoding, and
/// body, each settable through a chaining builder method, then serialized
/// once by [`Response::to_bytes`].
#[derive(Debug)]
pub struct Response {
    status: Status,
    content_type: ContentType,
    encoding_type: EncodingType,
    body: Option<Vec<u8>>,
}

impl View for Response {
    type V = ResponseModel;

    closed spec fn view(&self) -> ResponseModel {
        ResponseModel {
            status: self.status,
            content_type: self.content_type,
            encoding_type: self.encoding_type,
            body: match self.body {
                Some(b) => Some(b@),
                None => None,
            },
        }
    }
}

/// The body a response serializes: what was set, or empty.
pub open spec fn spec_body(m: ResponseModel) -> Seq<u8> {
    match m.body {
        Some(b) => b,
        None => Seq::empty(),
    }
}

/// The head of the wire form up to and excluding the content-length
/// digits.
pub open spec fn spec_head_before_length(m: ResponseModel) -> Seq<char> {
    "HTTP/1.1 "@ + spec_status_text(m.status) + "\r\nContent-Type: "@ + spec_content_type_text(
        m.content_type,
    ) + "\r\nContent-Length: "@
}

/// The head of the wire form after the content-length digits, up to and
/// including the blank line.
pub open spec fn spec_head_after_length(m: ResponseModel) -> Seq<char> {
    "\r\nContent-Encoding: "@ + spec_encoding_text(m.encoding_type) + "\r\n\r\n"@
}

/// The complete head of the wire form: status line, the three response
/// headers in their fixed order, and the blank line.
pub open spec fn spec_head(m: ResponseModel) -> Seq<char> {
    spec_head_before_length(m) + spec_dec_chars(spec_body(m).len() as int)
        + spec_head_after_length(m)
}

/// The complete wire form: the UTF-8 bytes of the head followed by the raw
/// body bytes.
pub open spec fn spec_serialize(m: ResponseModel) -> Seq<u8> {
    encode_utf8(spec_head(m)) + spec_body(m)
}

impl Response {
    /// Build a response in one call; a missing body is stored as an empty
    /// one.
    pub fn from(
        body: Option<Vec<u8>>,
        content_type: ContentType,
        status: Status,
        encoding_type: EncodingType,
    ) -> (r: Self)
        ensures
            r@.status == status,
            r@.content_type == content_type,
            r@.encoding_type == encoding_type,
            r@.body == Some(
                match body {
                    Some(b) => b@,
                    None => Seq::<u8>::empty(),
                },
            ),
    {
        let stored = match body {
            Some(b) => b,
            None => Vec::new(),
        };
        Response { status, content_type, encoding_type, body: Some(stored) }
    }

    /// Set the status, returning the builder.
    pub fn status(self, status: Status) -> (r: Self)
        ensures
            r@ == (ResponseModel { status, ..self@ }),
    {
        Response { status, ..self }
    }

    /// Set the content type, returning the builder.
    pub fn content_type(self, content_type: ContentType) -> (r: Self)
        ensures
            r@ == (ResponseModel { content_type, ..self@ }),
    {
        Response { content_type, ..self }
    }

    /// Set the encoding type, returning the builder.
    pub fn encoding_type(self, encoding_type: EncodingType) -> (r: Self)
        ensures
            r@ == (ResponseModel { encoding_type, ..self@ }),
    {
        Response { encoding_type, ..self }
    }

    /// Set the body, returning the builder.
    pub fn body(self, body: Vec<u8>) -> (r: Self)
        ensures
            r@ == (ResponseModel { body: Some(body@), ..self@ }),
    {
        Response { body: Some(body), ..self }
    }

    /// Serialize this response to its exact wire form: the status line,
    /// the `Content-Type`, `Content-Length` and `Content-Encoding` headers
    /// in that order, a blank line, then the raw body bytes. The length
    /// emitted is the byte length of the body as it stands now.
    pub fn to_bytes(&self) -> (r: Vec<u8>)
        ensures
            r@ == spec_serialize(self@),
    {
        let mut head = String::new();
        head.append("HTTP/1.1 ");
        head.append(self.status.wire_str());
        head.append("\r\nContent-Type: ");
        head.append(self.content_type.description());
        head.append("\r\nContent-Length: ");
        let len = match &self.body {
            Some(b) => b.len(),
            None => 0,
        };
        let len_text = usize_to_string(len);
        head.append(len_text.as_str());
        head.append("\r\nContent-Encoding: ");
        head.append(self.encoding_type.wire_str());
        head.append("\r\n\r\n");
        proof {
            assert(head@ =~= spec_head(self@));
        }
        let mut out = string_into_bytes(head);
        match &self.body {
            Some(b) => {
                out.extend_from_slice(b.as_slice());
            },
            None => {},
        }
        proof {
            assert(out@ =~= spec_serialize(self@));
        }
        out
    }

    /// Encode a payload for the wire: gzip-compress it when `encoding_type`
    /// is gzip, return it unchanged otherwise.
    pub fn encode_payload(payload: Vec<u8>, encoding_type: &EncodingType) -> (r: Vec<u8>)
        ensures
            *encoding_type == EncodingType::Gzip ==> r@ == gzip_of(payload@),
            *encoding_type != EncodingType::Gzip ==> r@ == payload@,
    {
        if *encoding_type == EncodingType::Gzip {
            gzip_compress(&payload)
        } else {
            payload
        }
    }
}

impl Default for Response {
    /// A fresh builder: status `200 OK`, content type `text/plain`, no
    /// encoding, no body.
    fn default() -> (r: Self)
        ensures
            r@.status == Status::Okay,
            r@.content_type == ContentType::TextPlain,
            r@.encoding_type == EncodingType::Identity,
            r@.body is None,
    {
        Response {
            status: Status::Okay,
            content_type: ContentType::TextPlain,
            encoding_type: EncodingType::Identity,
            body: None,
        }
    }
}

/// The gzip stream that flate2's encoder produces at the default
/// compression level for the given bytes.
pub uninterp spec fn gzip_of(data: Seq<u8>) -> Seq<u8>;

/// Relies on flate2's `GzEncoder` at the default compression level: its
/// output is a function of the input bytes alone (the header it writes is
/// fixed — zero modification time and a constant operating-system byte).
#[verifier::external_body]
fn gzip_compress(data: &Vec<u8>) -> (r: Vec<u8>)
    ensures
        r@ == gzip_of(data@),
{
    let mut encoder = flate2::write::GzEncoder::new(Vec::new(), flate2::Compression::default());
    std::io::Write::write_all(&mut encoder, data.as_slice()).unwrap();
    encoder.finish().unwrap()
}

/// Relies on `String::into_bytes`: it returns the string's UTF-8 bytes.
#[verifier::external_body]
pub(crate) fn string_into_bytes(s: String) -> (r: Vec<u8>)
    ensures
        r@ == encode_utf8(s@),
{
    s.into_bytes()
}

/// Serialization is a function of the response value alone: the same
/// fully-built response serializes to byte-identical output every time it
/// is asked for.
pub proof fn lemma_serialize_deterministic(a: ResponseModel, b: ResponseModel)
    requires
        a == b,
    ensures
        spec_serialize(a) == spec_serialize(b),
{
}

/// The `Content-Length` a serialized response carries is the decimal
/// rendering of the exact byte length of the body as serialized — the
/// possibly encoded body, never a precomputed length.
pub proof fn lemma_content_length_exact(m: ResponseModel)
    ensures
        spec_serialize(m) == encode_utf8(
            spec_head_before_length(m) + spec_dec_chars(spec_body(m).len() as int)
                + spec_head_after_length(m),
        ) + spec_body(m),
{
}

} // verus!

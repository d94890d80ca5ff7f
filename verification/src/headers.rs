use vstd::prelude::*;

verus! {

/// Request headers the parser recognizes, each with its canonical name.
///
/// A header line is matched by a case-sensitive substring search for the
/// canonical name.
#[derive(Clone, Copy, Debug, PartialEq, Eq, Structural)]
pub enum Headers {
    Host,
    UserAgent,
    ContentType,
    Accept,
    AcceptEncoding,
    ContentLength,
}

/// The canonical name of a recognized request header.
pub open spec fn spec_header_name(h: Headers) -> Seq<char> {
    match h {
        Headers::Host => "Host"@,
        Headers::UserAgent => "User-Agent"@,
        Headers::ContentType => "Content-Type"@,
        Headers::Accept => "Accept"@,
        Headers::AcceptEncoding => "Accept-Encoding"@,
        Headers::ContentLength => "Content-Length"@,
    }
}

impl Headers {
    /// The canonical name of this header, as it appears on the wire.
    pub fn name(&self) -> (r: &'static str)
        ensures
            r@ == spec_header_name(*self),
    {
        match self {
            Headers::Host => "Host",
            Headers::UserAgent => "User-Agent",
            Headers::ContentType => "Content-Type",
            Headers::Accept => "Accept",
            Headers::AcceptEncoding => "Accept-Encoding",
            Headers::ContentLength => "Content-Length",
        }
    }
}

} // verus!

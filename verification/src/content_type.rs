use vstd::prelude::*;

verus! {

/// Content types emitted by this server, each with a canonical wire string.
#[derive(Clone, Copy, Debug, PartialEq, Eq, Structural)]
pub enum ContentType {
    TextPlain,
    OctetStream,
    Json,
}

/// The canonical wire string of a content type.
pub open spec fn spec_content_type_text(c: ContentType) -> Seq<char> {
    match c {
        ContentType::TextPlain => "text/plain"@,
        ContentType::OctetStream => "application/octet-stream"@,
        ContentType::Json => "application/json"@,
    }
}

impl ContentType {
    /// The canonical wire string of this content type.
    pub fn description(&self) -> (r: &'static str)
        ensures
            r@ == spec_content_type_text(*self),
    {
        match self {
            ContentType::TextPlain => "text/plain",
            ContentType::OctetStream => "application/octet-stream",
            ContentType::Json => "application/json",
        }
    }
}

impl Default for ContentType {
    fn default() -> (r: Self)
        ensures
            r == ContentType::TextPlain,
    {
        ContentType::TextPlain
    }
}

} // verus!

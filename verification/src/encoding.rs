use vstd::prelude::*;
use vstd::string::StrSliceExecFns;
use crate::method::either_case;

verus! {

/// Payload encodings negotiated through the `Accept-Encoding` header.
///
/// `Gzip` compresses the response body; `Identity` leaves it untouched and is
/// also the reading of every unrecognized token.
#[derive(Clone, Copy, Debug, Hash, PartialEq, Eq, Structural)]
pub enum EncodingType {
    Gzip,
    Identity,
}

/// The encoding denoted by an `Accept-Encoding` token, compared ignoring
/// ASCII case; every unrecognized token reads as `Identity`.
pub open spec fn spec_encoding_of(t: Seq<char>) -> EncodingType {
    if t.len() == 4 && either_case(t[0], 'g', 'G') && either_case(t[1], 'z', 'Z')
        && either_case(t[2], 'i', 'I') && either_case(t[3], 'p', 'P') {
        EncodingType::Gzip
    } else {
        EncodingType::Identity
    }
}

/// The wire string of an encoding; `Identity` is written as the empty string.
pub open spec fn spec_encoding_text(e: EncodingType) -> Seq<char> {
    match e {
        EncodingType::Gzip => "gzip"@,
        EncodingType::Identity => ""@,
    }
}

impl EncodingType {
    /// Parse one `Accept-Encoding` token, ignoring ASCII case; tokens other
    /// than `gzip` read as `Identity`.
    pub fn from_token(t: &str) -> (r: EncodingType)
        ensures
            r == spec_encoding_of(t@),
    {
        if t.unicode_len() == 4 {
            let c0 = t.get_char(0);
            let c1 = t.get_char(1);
            let c2 = t.get_char(2);
            let c3 = t.get_char(3);
            if (c0 == 'g' || c0 == 'G') && (c1 == 'z' || c1 == 'Z') && (c2 == 'i' || c2 == 'I')
                && (c3 == 'p' || c3 == 'P') {
                EncodingType::Gzip
            } else {
                EncodingType::Identity
            }
        } else {
            EncodingType::Identity
        }
    }

    /// The wire string of this encoding, empty for `Identity`.
    pub fn wire_str(&self) -> (r: &'static str)
        ensures
            r@ == spec_encoding_text(*self),
    {
        match self {
            EncodingType::Gzip => "gzip",
            EncodingType::Identity => "",
        }
    }
}

} // verus!

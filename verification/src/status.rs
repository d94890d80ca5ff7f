use vstd::prelude::*;

verus! {

/// HTTP status codes used by this server.
///
/// Each variant carries its numeric code and reason phrase through
/// [`Status::wire_str`]; the default is `200 OK`.
#[derive(Clone, Copy, Debug, PartialEq, Eq, Structural)]
pub enum Status {
    Okay,
    Created,
    Accepted,
    NotFound,
}

/// The status-line fragment (`<code> <reason>`) for a status.
pub open spec fn spec_status_text(s: Status) -> Seq<char> {
    match s {
        Status::Okay => "200 OK"@,
        Status::Created => "201 Created"@,
        Status::Accepted => "202 Accepted"@,
        Status::NotFound => "404 Not Found"@,
    }
}

impl Status {
    /// The wire form of this status: its numeric code followed by its
    /// reason phrase.
    pub fn wire_str(&self) -> (r: &'static str)
        ensures
            r@ == spec_status_text(*self),
    {
        match self {
            Status::Okay => "200 OK",
            Status::Created => "201 Created",
            Status::Accepted => "202 Accepted",
            Status::NotFound => "404 Not Found",
        }
    }
}

impl Default for Status {
    fn default() -> (r: Self)
        ensures
            r == Status::Okay,
    {
        Status::Okay
    }
}

} // verus!

use vstd::prelude::*;
use vstd::string::StrSliceExecFns;

verus! {

/// HTTP method recognized by the request parser.
///
/// Parsed case-insensitively from the first token of the request line.
/// `Get` is the default, used only as a parser fallback, never as a
/// semantic default for routing.
#[derive(Clone, Copy, Debug, Hash, PartialEq, Eq, Structural)]
pub enum Method {
    Get,
    Post,
    Patch,
    Put,
    Delete,
}

/// `c` is one of the two given ASCII forms of a letter.
pub open spec fn either_case(c: char, lo: char, up: char) -> bool {
    c == lo || c == up
}

/// The method denoted by a request-line token, compared ignoring ASCII case.
pub open spec fn spec_method_of(t: Seq<char>) -> Option<Method> {
    if t.len() == 3 && either_case(t[0], 'g', 'G') && either_case(t[1], 'e', 'E')
        && either_case(t[2], 't', 'T') {
        Some(Method::Get)
    } else if t.len() == 3 && either_case(t[0], 'p', 'P') && either_case(t[1], 'u', 'U')
        && either_case(t[2], 't', 'T') {
        Some(Method::Put)
    } else if t.len() == 4 && either_case(t[0], 'p', 'P') && either_case(t[1], 'o', 'O')
        && either_case(t[2], 's', 'S') && either_case(t[3], 't', 'T') {
        Some(Method::Post)
    } else if t.len() == 5 && either_case(t[0], 'p', 'P') && either_case(t[1], 'a', 'A')
        && either_case(t[2], 't', 'T') && either_case(t[3], 'c', 'C')
        && either_case(t[4], 'h', 'H') {
        Some(Method::Patch)
    } else if t.len() == 6 && either_case(t[0], 'd', 'D') && either_case(t[1], 'e', 'E')
        && either_case(t[2], 'l', 'L') && either_case(t[3], 'e', 'E')
        && either_case(t[4], 't', 'T') && either_case(t[5], 'e', 'E') {
        Some(Method::Delete)
    } else {
        None
    }
}

impl Method {
    /// Parse a request-line token into a method, ignoring ASCII case.
    pub fn from_token(t: &str) -> (r: Option<Method>)
        ensures
            r == spec_method_of(t@),
    {
        let n = t.unicode_len();
        if n == 3 {
            let c0 = t.get_char(0);
            let c1 = t.get_char(1);
            let c2 = t.get_char(2);
            if (c0 == 'g' || c0 == 'G') && (c1 == 'e' || c1 == 'E') && (c2 == 't' || c2 == 'T') {
                Some(Method::Get)
            } else if (c0 == 'p' || c0 == 'P') && (c1 == 'u' || c1 == 'U') && (c2 == 't' || c2
                == 'T') {
                Some(Method::Put)
            } else {
                None
            }
        } else if n == 4 {
            let c0 = t.get_char(0);
            let c1 = t.get_char(1);
            let c2 = t.get_char(2);
            let c3 = t.get_char(3);
            if (c0 == 'p' || c0 == 'P') && (c1 == 'o' || c1 == 'O') && (c2 == 's' || c2 == 'S')
                && (c3 == 't' || c3 == 'T') {
                Some(Method::Post)
            } else {
                None
            }
        } else if n == 5 {
            let c0 = t.get_char(0);
            let c1 = t.get_char(1);
            let c2 = t.get_char(2);
            let c3 = t.get_char(3);
            let c4 = t.get_char(4);
            if (c0 == 'p' || c0 == 'P') && (c1 == 'a' || c1 == 'A') && (c2 == 't' || c2 == 'T')
                && (c3 == 'c' || c3 == 'C') && (c4 == 'h' || c4 == 'H') {
                Some(Method::Patch)
            } else {
                None
            }
        } else if n == 6 {
            let c0 = t.get_char(0);
            let c1 = t.get_char(1);
            let c2 = t.get_char(2);
            let c3 = t.get_char(3);
            let c4 = t.get_char(4);
            let c5 = t.get_char(5);
            if (c0 == 'd' || c0 == 'D') && (c1 == 'e' || c1 == 'E') && (c2 == 'l' || c2 == 'L')
                && (c3 == 'e' || c3 == 'E') && (c4 == 't' || c4 == 'T') && (c5 == 'e' || c5
                == 'E') {
                Some(Method::Delete)
            } else {
                None
            }
        } else {
            None
        }
    }
}

impl Default for Method {
    /// The parser fallback method.
    fn default() -> (r: Self)
        ensures
            r == Method::Get,
    {
        Method::Get
    }
}

} // verus!

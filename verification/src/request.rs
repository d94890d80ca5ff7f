//! The request parser: from header lines and body bytes to a structured
//! request.
//!
//! Callers read the header lines (everything before the first empty line)
//! and the `Content-Length`-bounded body bytes off the connection and hand
//! them in as plain values; every parsing decision is made here.

use vstd::prelude::*;
use vstd::string::StrSliceExecFns;
use vstd::string::StringExecFns;
use vstd::utf8::valid_utf8;
use vstd::utf8::decode_utf8;
use crate::encoding::EncodingType;
use crate::encoding::spec_encoding_of;
use crate::headers::Headers;
use crate::method::Method;
use crate::method::spec_method_of;
use crate::text::find_char;
use crate::text::contains_str;
use crate::text::last_token;
use crate::text::parse_usize;
use crate::text::spec_all_digits;
use crate::text::spec_contains;
use crate::text::spec_digits_val;
use crate::text::spec_last_token;
use crate::text::spec_query_value;
use crate::text::spec_split;
use crate::text::spec_trim_end;
use crate::text::spec_trim_start;
use crate::text::split_request_line;
use crate::text::query_value;
use crate::text::trim_end_char;
use crate::text::trim_start_char;
use crate::text::ws_tokens;

verus! {

/// A parsed request, immutable once built.
///
/// `path` carries the request target with its leading slashes stripped and
/// the query removed; `query` holds the value of the first `key=value`
/// query pair, or the sentinel `none`. Header fields default to the empty
/// string when the header is missing; `content_length` defaults to zero
/// when missing or unparsable.
#[derive(Debug)]
pub struct Request {
    pub method: Method,
    pub path: String,
    pub query: String,
    pub host: String,
    pub user_agent: String,
    pub accept: String,
    pub content_type: String,
    pub content_length: usize,
    pub accept_encoding: Vec<EncodingType>,
    pub body: String,
}

/// The error reported when a request cannot be parsed; the connection is
/// dropped without a response.
#[derive(Debug)]
pub struct ReqError {
    pub msg: String,
}

/// The part of `s` before the first occurrence of `c`, all of `s` when `c`
/// does not occur.
pub open spec fn spec_before_first(s: Seq<char>, c: char) -> Seq<char>
    decreases s.len(),
{
    if s.len() == 0 {
        Seq::empty()
    } else if s[0] == c {
        Seq::empty()
    } else {
        seq![s[0]] + spec_before_first(s.drop_first(), c)
    }
}

/// The part of `s` after the first occurrence of `c`, empty when `c` does
/// not occur.
pub open spec fn spec_after_first(s: Seq<char>, c: char) -> Seq<char>
    decreases s.len(),
{
    if s.len() == 0 {
        Seq::empty()
    } else if s[0] == c {
        s.drop_first()
    } else {
        spec_after_first(s.drop_first(), c)
    }
}

pub proof fn lemma_first_split(s: Seq<char>, c: char, i: int)
    requires
        0 <= i < s.len(),
        s[i] == c,
        forall|k: int| 0 <= k < i ==> s[k] != c,
    ensures
        spec_before_first(s, c) == s.subrange(0, i),
        spec_after_first(s, c) == s.skip(i + 1),
    decreases i,
{
    if i == 0 {
        assert(spec_before_first(s, c) =~= s.subrange(0, 0));
        assert(spec_after_first(s, c) =~= s.skip(1));
    } else {
        let d = s.drop_first();
        assert(forall|k: int| 0 <= k < i - 1 ==> d[k] != c);
        lemma_first_split(d, c, i - 1);
        assert(seq![s[0]] + d.subrange(0, i - 1) =~= s.subrange(0, i));
        assert(d.skip(i) =~= s.skip(i + 1));
    }
}

pub proof fn lemma_no_occurrence(s: Seq<char>, c: char)
    requires
        forall|k: int| 0 <= k < s.len() ==> s[k] != c,
    ensures
        spec_before_first(s, c) == s,
        spec_after_first(s, c) == Seq::<char>::empty(),
    decreases s.len(),
{
    if s.len() == 0 {
        assert(spec_before_first(s, c) =~= s);
    } else {
        lemma_no_occurrence(s.drop_first(), c);
        assert(seq![s[0]] + s.drop_first() =~= s);
    }
}

/// The method token of a request line split on single spaces.
pub open spec fn spec_method_tok_of(line: Seq<char>) -> Seq<char> {
    spec_split(line, ' ')[0]
}

/// The target token of a request line.
pub open spec fn spec_target_of(line: Seq<char>) -> Seq<char> {
    spec_split(line, ' ')[1]
}

/// A request line is well-formed when splitting it on single spaces yields
/// exactly three tokens and the first names a method.
pub open spec fn spec_request_line_ok(line: Seq<char>) -> bool {
    spec_split(line, ' ').len() == 3 && spec_method_of(spec_method_tok_of(line)) is Some
}

/// The path carried by a well-formed request line: the target up to the
/// first `?`, leading slashes stripped.
pub open spec fn spec_path_of(line: Seq<char>) -> Seq<char> {
    spec_trim_start(spec_before_first(spec_target_of(line), '?'), '/')
}

/// The query value carried by a well-formed request line.
pub open spec fn spec_query_of(line: Seq<char>) -> Seq<char> {
    spec_query_value(spec_after_first(spec_target_of(line), '?'))
}

/// The first header line containing `name`, if any.
pub open spec fn spec_find_line(lines: Seq<Seq<char>>, name: Seq<char>) -> Option<Seq<char>>
    decreases lines.len(),
{
    if lines.len() == 0 {
        None
    } else if spec_contains(lines[0], name) {
        Some(lines[0])
    } else {
        spec_find_line(lines.drop_first(), name)
    }
}

/// The value of the header named `name`: the last whitespace-delimited
/// token of the first line containing `name`, or empty when no line does.
pub open spec fn spec_header_value(lines: Seq<Seq<char>>, name: Seq<char>) -> Seq<char> {
    match spec_find_line(lines, name) {
        Some(l) => spec_last_token(l),
        None => Seq::empty(),
    }
}

/// The content length announced by the header lines: the `Content-Length`
/// value read as a decimal number, zero when missing or unparsable.
pub open spec fn spec_content_length(lines: Seq<Seq<char>>) -> int {
    let v = spec_header_value(lines, "Content-Length"@);
    if v.len() > 0 && spec_all_digits(v) && spec_digits_val(v) <= usize::MAX {
        spec_digits_val(v)
    } else {
        0
    }
}

/// The encodings denoted by a sequence of `Accept-Encoding` tokens, each
/// read with its trailing commas stripped.
pub open spec fn spec_encodings_of(tokens: Seq<Seq<char>>) -> Seq<EncodingType>
    decreases tokens.len(),
{
    if tokens.len() == 0 {
        Seq::empty()
    } else {
        seq![spec_encoding_of(spec_trim_end(tokens[0], ','))] + spec_encodings_of(
            tokens.drop_first(),
        )
    }
}

/// The encodings announced by the header lines: every token after the
/// first on the first line containing `Accept-Encoding`, in order.
pub open spec fn spec_accept_encodings(lines: Seq<Seq<char>>) -> Seq<EncodingType> {
    match spec_find_line(lines, "Accept-Encoding"@) {
        Some(l) => {
            let toks = crate::text::spec_ws_tokens(l);
            if toks.len() >= 1 {
                spec_encodings_of(toks.drop_first())
            } else {
                Seq::empty()
            }
        },
        None => Seq::empty(),
    }
}

/// The first header line containing `name`, if any.
pub fn find_header_line<'a>(lines: &'a Vec<String>, name: &str) -> (r: Option<&'a String>)
    ensures
        match r {
            Some(l) => spec_find_line(lines.deep_view(), name@) == Some(l@),
            None => spec_find_line(lines.deep_view(), name@) is None,
        },
{
    let ghost lv = lines.deep_view();
    let mut i: usize = 0;
    proof {
        assert(lv.skip(0) =~= lv);
    }
    while i < lines.len()
        invariant
            i <= lines.len(),
            lv == lines.deep_view(),
            lv.len() == lines.len(),
            spec_find_line(lv.skip(i as int), name@) == spec_find_line(lv, name@),
        decreases lines.len() - i,
    {
        proof {
            assert(lv.skip(i as int)[0] == lv[i as int]);
            assert(lv[i as int] == lines[i as int]@);
        }
        if contains_str(lines[i].as_str(), name) {
            return Some(&lines[i]);
        }
        proof {
            assert(lv.skip(i as int).drop_first() =~= lv.skip(i + 1));
        }
        i = i + 1;
    }
    proof {
        assert(lv.skip(lv.len() as int) =~= Seq::<Seq<char>>::empty());
    }
    None
}

/// The value of the header named `name` among the given lines, or the
/// empty string when no line carries it.
pub fn header_value(lines: &Vec<String>, name: &str) -> (r: String)
    ensures
        r@ == spec_header_value(lines.deep_view(), name@),
{
    match find_header_line(lines, name) {
        Some(l) => last_token(l.as_str()),
        None => String::new(),
    }
}

/// The encodings announced by the `Accept-Encoding` header line, in order,
/// possibly with duplicates.
pub fn accept_encoding_list(lines: &Vec<String>) -> (r: Vec<EncodingType>)
    ensures
        r@ == spec_accept_encodings(lines.deep_view()),
{
    let name = Headers::AcceptEncoding.name();
    let line = match find_header_line(lines, name) {
        Some(l) => l,
        None => {
            return Vec::new();
        },
    };
    let toks = ws_tokens(line.as_str());
    let ghost tv = toks.deep_view();
    let mut out: Vec<EncodingType> = Vec::new();
    if toks.len() == 0 {
        return out;
    }
    let mut i: usize = 1;
    proof {
        assert(tv.skip(1) =~= tv.drop_first());
    }
    while i < toks.len()
        invariant
            1 <= i <= toks.len(),
            tv == toks.deep_view(),
            tv.len() == toks.len(),
            out@ + spec_encodings_of(tv.skip(i as int)) == spec_encodings_of(tv.drop_first()),
        decreases toks.len() - i,
    {
        proof {
            assert(tv.skip(i as int)[0] == tv[i as int]);
            assert(tv[i as int] == toks[i as int]@);
            assert(tv.skip(i as int).drop_first() =~= tv.skip(i + 1));
        }
        let trimmed = trim_end_char(toks[i].as_str(), ',');
        let enc = EncodingType::from_token(trimmed);
        let ghost old_out = out@;
        out.push(enc);
        proof {
            assert(out@ =~= old_out.push(enc));
            assert(out@ + spec_encodings_of(tv.skip(i + 1)) =~= spec_encodings_of(
                tv.drop_first(),
            ));
        }
        i = i + 1;
    }
    proof {
        assert(tv.skip(tv.len() as int) =~= Seq::<Seq<char>>::empty());
        assert(out@ =~= spec_encodings_of(tv.drop_first()));
    }
    out
}

/// Parse the request line into its path, method, and query value; fails
/// when the line does not split into exactly three tokens or the first is
/// no method.
fn parse_method_and_path(line: &str) -> (r: Result<(String, Method, String), ReqError>)
    ensures
        match r {
            Ok(t) => spec_request_line_ok(line@) && t.0@ == spec_path_of(line@) && Some(t.1)
                == spec_method_of(spec_method_tok_of(line@)) && t.2@ == spec_query_of(line@),
            Err(_) => !spec_request_line_ok(line@),
        },
{
    let (method_tok, target) = match split_request_line(line) {
        Some(p) => p,
        None => {
            return Err(ReqError { msg: String::from_str("malformed request line") });
        },
    };
    let method = match Method::from_token(method_tok.as_str()) {
        Some(m) => m,
        None => {
            return Err(ReqError { msg: String::from_str("unrecognized method") });
        },
    };
    let n = target.as_str().unicode_len();
    let ghost t = target@;
    let (raw_path, query) = match find_char(target.as_str(), 0, '?') {
        Some(i) => {
            proof {
                lemma_first_split(t, '?', i as int);
            }
            let raw = target.as_str().substring_char(0, i);
            let q = query_value(target.as_str().substring_char(i + 1, n));
            proof {
                assert(t.subrange(i + 1, n as int) =~= t.skip(i + 1));
            }
            (raw.to_owned(), q)
        },
        None => {
            proof {
                lemma_no_occurrence(t, '?');
            }
            let q = query_value("");
            proof {
                reveal_strlit("");
                assert(""@ =~= Seq::<char>::empty());
            }
            (target, q)
        },
    };
    let path = trim_start_char(raw_path.as_str(), '/').to_owned();
    Ok((path, method, query))
}

impl Request {
    /// Parse the header lines of one request: the request line followed by
    /// every header line that preceded the first empty line. The body is
    /// left empty; `content_length` announces how many body bytes to read.
    /// Fails exactly when there is no request line or it is malformed.
    pub fn parse_head(lines: &Vec<String>) -> (r: Result<Request, ReqError>)
        ensures
            match r {
                Ok(req) => {
                    let lv = lines.deep_view();
                    &&& lv.len() > 0
                    &&& spec_request_line_ok(lv[0])
                    &&& Some(req.method) == spec_method_of(spec_method_tok_of(lv[0]))
                    &&& req.path@ == spec_path_of(lv[0])
                    &&& req.query@ == spec_query_of(lv[0])
                    &&& req.host@ == spec_header_value(lv, "Host"@)
                    &&& req.user_agent@ == spec_header_value(lv, "User-Agent"@)
                    &&& req.content_type@ == spec_header_value(lv, "Content-Type"@)
                    &&& req.accept@ == spec_header_value(lv, "Accept"@)
                    &&& req.content_length == spec_content_length(lv)
                    &&& req.accept_encoding@ == spec_accept_encodings(lv)
                    &&& req.body@ == Seq::<char>::empty()
                },
                Err(_) => lines.deep_view().len() == 0 || !spec_request_line_ok(
                    lines.deep_view()[0],
                ),
            },
    {
        let ghost lv = lines.deep_view();
        if lines.len() == 0 {
            return Err(ReqError { msg: String::from_str("no request line") });
        }
        proof {
            assert(lv[0] == lines[0]@);
        }
        let (path, method, query) = match parse_method_and_path(lines[0].as_str()) {
            Ok(t) => t,
            Err(e) => {
                return Err(e);
            },
        };
        let host = header_value(lines, Headers::Host.name());
        let user_agent = header_value(lines, Headers::UserAgent.name());
        let content_type = header_value(lines, Headers::ContentType.name());
        let accept = header_value(lines, Headers::Accept.name());
        let cl_text = header_value(lines, Headers::ContentLength.name());
        let content_length = match parse_usize(cl_text.as_str()) {
            Some(v) => v,
            None => 0,
        };
        let accept_encoding = accept_encoding_list(lines);
        Ok(
            Request {
                method,
                path,
                query,
                host,
                user_agent,
                accept,
                content_type,
                content_length,
                accept_encoding,
                body: String::new(),
            },
        )
    }

    /// Attach the body read off the connection, decoding it as UTF-8;
    /// fails exactly when the bytes are not valid UTF-8.
    pub fn attach_body(self, bytes: Vec<u8>) -> (r: Result<Request, ReqError>)
        ensures
            match r {
                Ok(req) => {
                    &&& valid_utf8(bytes@)
                    &&& req.body@ == decode_utf8(bytes@)
                    &&& req.method == self.method
                    &&& req.path == self.path
                    &&& req.query == self.query
                    &&& req.host == self.host
                    &&& req.user_agent == self.user_agent
                    &&& req.accept == self.accept
                    &&& req.content_type == self.content_type
                    &&& req.content_length == self.content_length
                    &&& req.accept_encoding == self.accept_encoding
                },
                Err(_) => !valid_utf8(bytes@),
            },
    {
        match string_from_utf8(bytes) {
            Some(body) => Ok(Request { body, ..self }),
            None => Err(ReqError { msg: String::from_str("body is not valid UTF-8") }),
        }
    }

    /// The encoding preferred by this request: gzip exactly when the
    /// client announced it in `Accept-Encoding`.
    pub fn get_encoding(&self) -> (r: EncodingType)
        ensures
            r == if self.accept_encoding@.contains(EncodingType::Gzip) {
                EncodingType::Gzip
            } else {
                EncodingType::Identity
            },
    {
        let mut i: usize = 0;
        while i < self.accept_encoding.len()
            invariant
                i <= self.accept_encoding.len(),
                forall|k: int| 0 <= k < i ==> self.accept_encoding@[k] != EncodingType::Gzip,
            decreases self.accept_encoding.len() - i,
        {
            if self.accept_encoding[i] == EncodingType::Gzip {
                return EncodingType::Gzip;
            }
            i = i + 1;
        }
        EncodingType::Identity
    }
}

/// Relies on `String::from_utf8`: it succeeds exactly on valid UTF-8 input
/// and returns its decoding.
#[verifier::external_body]
fn string_from_utf8(bytes: Vec<u8>) -> (r: Option<String>)
    ensures
        match r {
            Some(s) => valid_utf8(bytes@) && s@ == decode_utf8(bytes@),
            None => !valid_utf8(bytes@),
        },
{
    String::from_utf8(bytes).ok()
}

} // verus!

//! The HTTP side of a call, before and after the network: which method is
//! sent, how header lines split, and which statuses count as success.
use vstd::prelude::*;

use crate::text::{decimal, push_decimal, push_str, chars_of, find, first_index, lemma_first_index, skip_ws, str_eq, substring, trim_start};
use vstd::string::StringSliceAdditionalSpecFns;

verus! {

broadcast use vstd::string::group_string_axioms;

/// A response as the command line uses it.
pub struct Response {
    pub status: u16,
    pub body: String,
}

/// A 2xx status.
pub open spec fn success(status: u16) -> bool {
    200 <= status && status < 300
}

pub fn is_success(status: u16) -> (r: bool)
    ensures
        r == success(status),
{
    200 <= status && status < 300
}

/// How many bytes of a failed response's body its error shows: at most 512.
pub open spec fn excerpt_len(body: &str) -> int {
    if body.spec_bytes().len() < 512 {
        body.spec_bytes().len() as int
    } else {
        512
    }
}

/// The error for a response that is not 2xx: `HTTP`, the status and the
/// first (at most 512) bytes of the body; `None` for a 2xx response. The cut
/// must fall between two characters.
pub fn response_error(status: u16, body: &str) -> (r: Option<String>)
    requires
        body.spec_bytes().len() <= usize::MAX,
        vstd::utf8::is_char_boundary(body.spec_bytes(), excerpt_len(body)),
    ensures
        match r {
            None => success(status),
            Some(m) => !success(status) && m@ == "HTTP "@ + decimal(status as nat) + ": "@
                + vstd::utf8::decode_utf8(body.spec_bytes().subrange(0, excerpt_len(body))),
        },
{
    if 200 <= status && status < 300 {
        return None;
    }
    let n: usize = if body.len() < 512 {
        body.len()
    } else {
        512
    };
    let (head, _) = body.split_at(n);
    proof {
        vstd::utf8::encode_utf8_decode_utf8(head@);
    }
    let mut m = crate::text::owned("HTTP ");
    push_decimal(&mut m, status as u64);
    push_str(&mut m, ": ");
    push_str(&mut m, head);
    assert(head.spec_bytes() == body.spec_bytes().subrange(0, excerpt_len(body)));
    assert(m@ =~= "HTTP "@ + decimal(status as nat) + ": "@ + head@);
    Some(m)
}

/// The methods a request can be sent with.
#[derive(PartialEq, Eq, Structural, Clone, Copy, Debug)]
pub enum HttpMethod {
    Get,
    Post,
    Put,
    Delete,
    Patch,
    Head,
    Options,
}

/// What `str::to_uppercase` returns for a text (upper case in the Unicode
/// sense, which can change the length).
pub uninterp spec fn unicode_upper(s: Seq<char>) -> Seq<char>;

/// `str::to_uppercase`; its result is named by [`unicode_upper`].
#[verifier::external_body]
fn to_uppercase(s: &str) -> (r: String)
    ensures
        r@ == unicode_upper(s@),
{
    s.to_uppercase()
}

/// The method named by an upper-cased method text.
pub open spec fn method_of(upper: Seq<char>) -> Option<HttpMethod> {
    if upper == "GET"@ {
        Some(HttpMethod::Get)
    } else if upper == "POST"@ {
        Some(HttpMethod::Post)
    } else if upper == "PUT"@ {
        Some(HttpMethod::Put)
    } else if upper == "DELETE"@ {
        Some(HttpMethod::Delete)
    } else if upper == "PATCH"@ {
        Some(HttpMethod::Patch)
    } else if upper == "HEAD"@ {
        Some(HttpMethod::Head)
    } else if upper == "OPTIONS"@ {
        Some(HttpMethod::Options)
    } else {
        None
    }
}

/// The method named by an upper-cased method text.
pub fn method_from_upper(upper: &str) -> (r: Option<HttpMethod>)
    ensures
        r == method_of(upper@),
{
    if str_eq(upper, "GET") {
        Some(HttpMethod::Get)
    } else if str_eq(upper, "POST") {
        Some(HttpMethod::Post)
    } else if str_eq(upper, "PUT") {
        Some(HttpMethod::Put)
    } else if str_eq(upper, "DELETE") {
        Some(HttpMethod::Delete)
    } else if str_eq(upper, "PATCH") {
        Some(HttpMethod::Patch)
    } else if str_eq(upper, "HEAD") {
        Some(HttpMethod::Head)
    } else if str_eq(upper, "OPTIONS") {
        Some(HttpMethod::Options)
    } else {
        None
    }
}

/// The method to send for a method text, compared after upper-casing;
/// `None` for a method the client does not send.
pub fn http_method(method: &str) -> (r: Option<HttpMethod>)
    ensures
        r == method_of(unicode_upper(method@)),
{
    let u = to_uppercase(method);
    method_from_upper(u.as_str())
}

/// The name of a header line: everything before the first `:`.
pub open spec fn header_name(h: Seq<char>) -> Seq<char> {
    h.take(first_index(h, ':'))
}

/// The value of a header line: what follows the first `:`, without leading
/// whitespace; empty when there is no `:`.
pub open spec fn header_value(h: Seq<char>) -> Seq<char> {
    let c = first_index(h, ':');
    if c < h.len() {
        trim_start(h.skip(c + 1))
    } else {
        Seq::empty()
    }
}

/// Splits a `Name: value` line.
pub fn split_header(h: &str) -> (r: (String, String))
    ensures
        r.0@ == header_name(h@),
        r.1@ == header_value(h@),
{
    let v = chars_of(h);
    let c = find(&v, ':');
    proof {
        lemma_first_index(v@, ':');
    }
    let name = substring(&v, 0, c);
    if c < v.len() {
        let s = skip_ws(&v, c + 1);
        let value = substring(&v, s, v.len());
        proof {
            crate::text::lemma_skip_ws_shift(v@, c + 1, 0);
        }
        assert(value@ =~= header_value(h@));
        (name, value)
    } else {
        (name, String::new())
    }
}


/// A request ready for the network.
pub struct Request {
    pub method: HttpMethod,
    pub url: String,
    pub headers: Vec<(String, String)>,
    pub body: String,
    pub timeout_ms: u64,
}

/// Prepares a request: `None` for a method that is not sent; the timeout is
/// at least one millisecond.
pub fn request(
    method: &str,
    url: &str,
    headers: &Vec<String>,
    body: &str,
    timeout_ms: u64,
) -> (r: Option<Request>)
    ensures
        match r {
            Some(req) => {
                &&& method_of(unicode_upper(method@)) == Some(req.method)
                &&& req.url@ == url@
                &&& req.body@ == body@
                &&& req.timeout_ms == if timeout_ms == 0 {
                    1
                } else {
                    timeout_ms
                }
                &&& req.headers@.len() == headers@.len()
                &&& forall|i: int|
                    0 <= i < headers@.len() ==> (#[trigger] req.headers@[i]).0@ == header_name(
                        headers@[i]@,
                    ) && req.headers@[i].1@ == header_value(headers@[i]@)
            },
            None => method_of(unicode_upper(method@)) is None,
        },
{
    let m = match http_method(method) {
        Some(m) => m,
        None => return None,
    };
    let mut hs: Vec<(String, String)> = Vec::new();
    let mut i: usize = 0;
    while i < headers.len()
        invariant
            i <= headers@.len(),
            hs@.len() == i,
            forall|k: int|
                0 <= k < i ==> (#[trigger] hs@[k]).0@ == header_name(headers@[k]@) && hs@[k].1@
                    == header_value(headers@[k]@),
        decreases headers.len() - i,
    {
        let pair = split_header(headers[i].as_str());
        hs.push(pair);
        i += 1;
    }
    Some(
        Request {
            method: m,
            url: crate::text::owned(url),
            headers: hs,
            body: crate::text::owned(body),
            timeout_ms: if timeout_ms == 0 {
                1
            } else {
                timeout_ms
            },
        },
    )
}

} // verus!

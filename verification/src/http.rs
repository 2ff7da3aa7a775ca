//! HTTP/1.1 requests and responses.
//!
//! A request is read line by line: the request line, then header lines up to
//! the first blank one, then as many content bytes as `Content-Length` names.
//! The decisions taken on each piece are here; reading the pieces from a
//! connection is left to the caller, which feeds them in turn to
//! [`Request::from_request_line`], [`Request::read_header_line`] and
//! [`Request::set_content_bytes`]. [`Request::from_bytes`] does the same on
//! bytes already at hand.
use vstd::prelude::*;
use vstd::utf8::{valid_utf8, decode_utf8, encode_utf8};
use crate::clock::{format_utc, subsecond, timestamp_in_range, utc_text};
use crate::cookie::Cookie;
use crate::string_map::StringMap;
use crate::text::{
    chars_eq, chars_of, decimal, decimal_string, find_char, find_char_from, lemma_find_char_found, lowercase, parse_usize, parse_usize_spec, slice_range,
    split_char, split_chars, split_once, str_eq, string_from_utf8, string_of, string_of_all,
    to_lowercase, trim, trimmed, trimmed_string,
};

verus! {

/// The request methods the server knows.
#[derive(Clone, Copy, Debug, PartialEq, Eq, Structural)]
pub enum Method {
    GET,
    POST,
    PATCH,
    DELETE,
}

/// The method a request-line token names.
pub open spec fn method_named(token: Seq<char>) -> Option<Method> {
    if token == "GET"@ {
        Some(Method::GET)
    } else if token == "POST"@ {
        Some(Method::POST)
    } else if token == "PATCH"@ {
        Some(Method::PATCH)
    } else if token == "DELETE"@ {
        Some(Method::DELETE)
    } else {
        None
    }
}

/// What a request line gives: its method, the path before the first `?` of
/// the target, and what follows that `?` (empty when there is none); or the
/// error that refuses it.
pub open spec fn request_line_spec(line: Seq<u8>) -> Result<
    (Method, Seq<char>, Seq<char>),
    &'static str,
> {
    if !valid_utf8(line) {
        Err("Header could not be converted to UTF-8")
    } else {
        let tokens = split_char(trim(decode_utf8(line)), ' ');
        if tokens.len() != 3 || tokens[2] != "HTTP/1.1"@ {
            Err("Error parsing header")
        } else {
            let target = split_once(tokens[1], '?');
            match method_named(tokens[0]) {
                None => Err("Invalid method"),
                Some(m) => Ok(
                    (
                        m,
                        target[0],
                        if target.len() > 1 {
                            target[1]
                        } else {
                            Seq::empty()
                        },
                    ),
                ),
            }
        }
    }
}

/// The effect of a header line `name:rest`, its name already lowercased as
/// `lower`, on the headers read so far and on the content length: a
/// `content-length` line sets the content length to the trimmed rest's
/// parsed value, or to 0 when it does not parse; any other line stores the
/// trimmed rest under the trimmed lowercased name.
pub open spec fn named_header_spec(
    headers: Map<Seq<char>, Seq<char>>,
    content_length: nat,
    lower: Seq<char>,
    rest: Seq<char>,
) -> (Map<Seq<char>, Seq<char>>, nat) {
    if lower == "content-length"@ {
        (
            headers,
            match parse_usize_spec(trim(rest)) {
                Some(v) => v,
                None => 0,
            },
        )
    } else {
        (headers.insert(trim(lower), trim(rest)), content_length)
    }
}

/// A header line other than `Content-Length` stores its trimmed value under
/// its trimmed lowercased name, replacing whatever was stored there, leaves
/// every other header as it was and the content length unchanged; a
/// `Content-Length` line leaves the headers as they were.
pub proof fn lemma_later_header_wins(
    headers: Map<Seq<char>, Seq<char>>,
    content_length: nat,
    lower: Seq<char>,
    rest: Seq<char>,
)
    ensures
        lower != "content-length"@ ==> {
            let (h, c) = named_header_spec(headers, content_length, lower, rest);
            &&& h.contains_key(trim(lower))
            &&& h[trim(lower)] == trim(rest)
            &&& c == content_length
            &&& forall|k: Seq<char>|
                k != trim(lower) ==> (h.contains_key(k) <==> headers.contains_key(k)) && (
                headers.contains_key(k) ==> h[k] == headers[k])
        },
        lower == "content-length"@ ==> named_header_spec(headers, content_length, lower, rest).0
            == headers,
{
}

/// The effect of one header line on the headers read so far and on the
/// content length: `(headers, content_length, more)`, where `more` is false
/// for the blank line that ends the headers. A line that is not UTF-8, or
/// has no `:`, changes nothing. A `Content-Length` line (its name compared
/// in lowercase) sets the content length to its parsed value, or to 0 when it
/// does not parse; any other line stores its trimmed value under its
/// lowercased, trimmed name.
pub open spec fn header_line_spec(
    headers: Map<Seq<char>, Seq<char>>,
    content_length: nat,
    line: Seq<u8>,
) -> (Map<Seq<char>, Seq<char>>, nat, bool) {
    if !valid_utf8(line) {
        (headers, content_length, true)
    } else {
        let t = trim(decode_utf8(line));
        if t.len() == 0 {
            (headers, content_length, false)
        } else {
            let parts = split_once(t, ':');
            if parts.len() == 2 {
                let (h2, c2) = named_header_spec(headers, content_length, lowercase(parts[0]), parts[1]);
                (h2, c2, true)
            } else {
                (headers, content_length, true)
            }
        }
    }
}

/// A UTF-8 header line `name:rest` (trimmed, split at its first `:`, at `i`) that is
/// not `Content-Length` stores the trimmed `rest` under the trimmed
/// lowercased `name`, replacing what was stored there, and more header lines
/// follow; a non-blank line without `:` changes nothing.
pub proof fn lemma_header_line_stores_value(
    headers: Map<Seq<char>, Seq<char>>,
    content_length: nat,
    line: Seq<u8>,
    i: int,
)
    requires
        valid_utf8(line),
    ensures
        ({
            let t = trim(decode_utf8(line));
            find_char(t, ':') == Some(i) && lowercase(t.take(i)) != "content-length"@
                ==> header_line_spec(headers, content_length, line) == (
                headers.insert(trim(lowercase(t.take(i))), trim(t.skip(i + 1))),
                content_length,
                true,
            )
        }),
        ({
            let t = trim(decode_utf8(line));
            find_char(t, ':') is None && t.len() > 0 ==> header_line_spec(
                headers,
                content_length,
                line,
            ) == (headers, content_length, true)
        }),
{
    let t = trim(decode_utf8(line));
    lemma_find_char_found(t, ':');
}

/// The content a request carries: the `content_length` bytes that follow the
/// headers, decoded; empty when the length is 0, when fewer bytes are there,
/// or when they are not UTF-8.
pub open spec fn content_spec(data: Seq<u8>, start: int, content_length: nat) -> Seq<char> {
    if content_length > 0 && start + content_length <= data.len() && valid_utf8(
        data.subrange(start, start + content_length),
    ) {
        decode_utf8(data.subrange(start, start + content_length))
    } else {
        Seq::empty()
    }
}

/// The index of the first `b` in `s`.
pub open spec fn find_byte(s: Seq<u8>, b: u8) -> Option<int>
    decreases s.len(),
{
    if s.len() == 0 {
        None
    } else if s[0] == b {
        Some(0)
    } else {
        match find_byte(s.drop_first(), b) {
            Some(i) => Some(i + 1),
            None => None,
        }
    }
}

/// Where the line that starts at `p` ends: just after the next `\n`, or at
/// the end of the data, as `read_until(b'\n', ..)` reads it.
pub open spec fn line_end(data: Seq<u8>, p: int) -> int {
    match find_byte(data.skip(p), 10u8) {
        Some(i) => p + i + 1,
        None => data.len() as int,
    }
}

/// The headers and content length read from the header lines that start at
/// `p`, with `headers` and `content_length` read before; and the position
/// just after the blank line that ends them (or the end of the data).
pub open spec fn headers_spec(
    data: Seq<u8>,
    p: int,
    headers: Map<Seq<char>, Seq<char>>,
    content_length: nat,
) -> (Map<Seq<char>, Seq<char>>, nat, int)
    decreases data.len() - p,
{
    let e = line_end(data, p);
    if p < 0 || p >= data.len() || e <= p || e > data.len() {
        (headers, content_length, data.len() as int)
    } else {
        let (h2, c2, more) = header_line_spec(headers, content_length, data.subrange(p, e));
        if !more {
            (headers, content_length, e)
        } else {
            headers_spec(data, e, h2, c2)
        }
    }
}

/// What a request is made of, as mathematical values.
pub struct RequestModel {
    pub method: Method,
    pub url: Seq<char>,
    pub query_string: Seq<char>,
    pub headers: Map<Seq<char>, Seq<char>>,
    pub content: Seq<char>,
}

/// The request that the bytes `data` hold, of which only the first
/// `max_request_size` are read.
pub open spec fn request_spec(data: Seq<u8>, max_request_size: nat) -> Result<
    RequestModel,
    &'static str,
> {
    let d = if data.len() <= max_request_size {
        data
    } else {
        data.take(max_request_size as int)
    };
    let e0 = line_end(d, 0);
    match request_line_spec(d.take(e0)) {
        Err(msg) => Err(msg),
        Ok((m, url, query)) => {
            let (headers, content_length, start) = headers_spec(d, e0, Map::empty(), 0);
            Ok(
                RequestModel {
                    method: m,
                    url,
                    query_string: query,
                    headers,
                    content: content_spec(d, start, content_length),
                },
            )
        },
    }
}

/// A request received by the server.
pub struct Request {
    method: Method,
    url: String,
    query_string: String,
    raw_headers: StringMap,
    content: String,
}

impl View for Request {
    type V = RequestModel;

    closed spec fn view(&self) -> RequestModel {
        RequestModel {
            method: self.method,
            url: self.url@,
            query_string: self.query_string@,
            headers: self.raw_headers@,
            content: self.content@,
        }
    }
}

/// Finds the first `b` in `s[from..]`.
fn find_byte_from(s: &[u8], from: usize, b: u8) -> (r: Option<usize>)
    requires
        from <= s@.len(),
    ensures
        r matches Some(i) ==> (from <= i < s@.len() && find_byte(s@.skip(from as int), b) == Some(
            i - from,
        )),
        r is None ==> find_byte(s@.skip(from as int), b) is None,
{
    let ghost t = s@.skip(from as int);
    let mut i = from;
    while i < s.len()
        invariant
            from <= i <= s@.len(),
            t == s@.skip(from as int),
            forall|j: int| 0 <= j < i - from ==> t[j] != b,
        decreases s.len() - i,
    {
        if s[i] == b {
            proof {
                lemma_find_byte(t, b, i - from);
            }
            return Some(i);
        }
        i = i + 1;
    }
    proof {
        lemma_find_byte(t, b, i - from);
    }
    None
}

proof fn lemma_find_byte(s: Seq<u8>, b: u8, i: int)
    requires
        0 <= i <= s.len(),
        forall|j: int| 0 <= j < i ==> s[j] != b,
    ensures
        i < s.len() && s[i] == b ==> find_byte(s, b) == Some(i),
        i == s.len() ==> find_byte(s, b) is None,
    decreases i,
{
    if i > 0 {
        lemma_find_byte(s.drop_first(), b, i - 1);
    }
}

/// Where the line starting at `p` ends.
fn next_line_end(data: &[u8], p: usize) -> (e: usize)
    requires
        p <= data@.len(),
    ensures
        e == line_end(data@, p as int),
        p <= e <= data@.len(),
        p < data@.len() ==> p < e,
{
    match find_byte_from(data, p, 10u8) {
        Some(i) => {
            assert(i < data.len());
            i + 1
        },
        None => data.len(),
    }
}

/// The method that a token names.
fn method_of(token: &[char]) -> (r: Option<Method>)
    ensures
        r == method_named(token@),
{
    if chars_eq(token, chars_of("GET").as_slice()) {
        Some(Method::GET)
    } else if chars_eq(token, chars_of("POST").as_slice()) {
        Some(Method::POST)
    } else if chars_eq(token, chars_of("PATCH").as_slice()) {
        Some(Method::PATCH)
    } else if chars_eq(token, chars_of("DELETE").as_slice()) {
        Some(Method::DELETE)
    } else {
        None
    }
}

impl Request {
    pub fn method(&self) -> (r: Method)
        ensures
            r == self@.method,
    {
        self.method
    }

    pub fn url(&self) -> (r: &str)
        ensures
            r@ == self@.url,
    {
        self.url.as_str()
    }

    pub fn query_string(&self) -> (r: &str)
        ensures
            r@ == self@.query_string,
    {
        self.query_string.as_str()
    }

    pub fn raw_headers(&self) -> (r: &StringMap)
        ensures
            r@ == self@.headers,
    {
        &self.raw_headers
    }

    pub fn content(&self) -> (r: String)
        ensures
            r@ == self@.content,
    {
        self.content.clone()
    }

    /// Starts a request from its request line (the bytes up to and including
    /// the first `\n`): its headers and content are empty until read.
    pub fn from_request_line(line: &[u8]) -> (r: Result<Request, &'static str>)
        ensures
            match request_line_spec(line@) {
                Err(msg) => r == Err::<Request, &'static str>(msg),
                Ok((m, url, query)) => r matches Ok(req) && req@ == RequestModel {
                    method: m,
                    url,
                    query_string: query,
                    headers: Map::empty(),
                    content: Seq::empty(),
                },
            },
    {
        let decoded = match string_from_utf8(vstd::slice::slice_to_vec(line)) {
            Some(s) => s,
            None => return Err("Header could not be converted to UTF-8"),
        };
        let chars = chars_of(decoded.as_str());
        let t = trimmed(chars.as_slice());
        let tokens = split_chars(t.as_slice(), ' ');
        if tokens.len() != 3 || !chars_eq(tokens[2].as_slice(), chars_of("HTTP/1.1").as_slice()) {
            return Err("Error parsing header");
        }
        let target = tokens[1].as_slice();
        assert(target@.skip(0) =~= target@);
        let (url, query_string) = match find_char_from(target, 0, '?') {
            Some(i) => {
                assert(i < target.len());
                (string_of(target, 0, i), string_of(target, i + 1, target.len()))
            },
            None => (string_of_all(target), String::new()),
        };
        let method = match method_of(tokens[0].as_slice()) {
            Some(m) => m,
            None => return Err("Invalid method"),
        };
        let r = Request { method, url, query_string, raw_headers: StringMap::new(), content: String::new() };
        assert(r@.headers =~= Map::<Seq<char>, Seq<char>>::empty());
        Ok(r)
    }

    /// Reads one header line (the bytes up to and including its `\n`).
    /// Returns whether more header lines follow, that is, false for the
    /// blank line that ends the headers.
    pub fn read_header_line(&mut self, line: &[u8], content_length: &mut usize) -> (more: bool)
        ensures
            ({
                let (h, c, m) = header_line_spec(old(self)@.headers, *old(content_length) as nat, line@);
                &&& final(self)@.headers == h
                &&& *final(content_length) as nat == c
                &&& more == m
            }),
            final(self)@.method == old(self)@.method,
            final(self)@.url == old(self)@.url,
            final(self)@.query_string == old(self)@.query_string,
            final(self)@.content == old(self)@.content,
    {
        let decoded = match string_from_utf8(vstd::slice::slice_to_vec(line)) {
            Some(s) => s,
            None => return true,
        };
        let chars = chars_of(decoded.as_str());
        let t = trimmed(chars.as_slice());
        if t.len() == 0 {
            return false;
        }
        let ts = t.as_slice();
        assert(ts@.skip(0) =~= ts@);
        match find_char_from(ts, 0, ':') {
            None => true,
            Some(i) => {
                let name = string_of(ts, 0, i);
                let rest = slice_range(ts, i + 1, ts.len());
                assert(rest@ =~= ts@.skip(i + 1));
                let lower = to_lowercase(name.as_str());
                self.read_named_header(lower.as_str(), rest.as_slice(), content_length);
                true
            },
        }
    }

    /// Reads a header line whose name, already lowercased, is `lower_name`,
    /// and whose part after the first `:` is `rest`.
    pub fn read_named_header(&mut self, lower_name: &str, rest: &[char], content_length: &mut usize)
        ensures
            ({
                let (h, c) = named_header_spec(
                    old(self)@.headers,
                    *old(content_length) as nat,
                    lower_name@,
                    rest@,
                );
                &&& final(self)@.headers == h
                &&& *final(content_length) as nat == c
            }),
            final(self)@.method == old(self)@.method,
            final(self)@.url == old(self)@.url,
            final(self)@.query_string == old(self)@.query_string,
            final(self)@.content == old(self)@.content,
    {
        if str_eq(lower_name, "content-length") {
            *content_length = match parse_usize(trimmed(rest).as_slice()) {
                Some(v) => v,
                None => 0,
            };
        } else {
            let lower_chars = chars_of(lower_name);
            let key = trimmed_string(lower_chars.as_slice());
            let value = trimmed_string(rest);
            self.raw_headers.insert(key, value);
        }
    }

    /// Sets the content from the bytes read after the headers: the content
    /// stays empty when they are not UTF-8.
    pub fn set_content_bytes(&mut self, bytes: Vec<u8>)
        ensures
            final(self)@.content == (if valid_utf8(bytes@) {
                decode_utf8(bytes@)
            } else {
                old(self)@.content
            }),
            final(self)@.method == old(self)@.method,
            final(self)@.url == old(self)@.url,
            final(self)@.query_string == old(self)@.query_string,
            final(self)@.headers == old(self)@.headers,
    {
        match string_from_utf8(bytes) {
            Some(s) => {
                self.content = s;
            },
            None => {},
        }
    }

    /// Reads a request from bytes already received, of which at most the
    /// first `max_request_size` are read.
    pub fn from_bytes(data: &[u8], max_request_size: u64) -> (r: Result<Request, &'static str>)
        ensures
            match request_spec(data@, max_request_size as nat) {
                Err(msg) => r == Err::<Request, &'static str>(msg),
                Ok(model) => r matches Ok(req) && req@ == model,
            },
    {
        let d: &[u8] = if (data.len() as u64) <= max_request_size {
            data
        } else {
            vstd::slice::slice_subrange(data, 0, max_request_size as usize)
        };
        assert(d@ == (if data@.len() <= max_request_size as nat {
            data@
        } else {
            data@.take(max_request_size as int)
        }));
        let e0 = next_line_end(d, 0);
        let mut request = match Request::from_request_line(vstd::slice::slice_subrange(d, 0, e0)) {
            Ok(r) => r,
            Err(msg) => {
                assert(d@.subrange(0, e0 as int) =~= d@.take(e0 as int));
                return Err(msg);
            },
        };
        assert(d@.subrange(0, e0 as int) =~= d@.take(e0 as int));
        let mut content_length: usize = 0;
        let mut p = e0;
        let ghost first = request@;
        loop
            invariant_except_break
                headers_spec(d@, e0 as int, Map::empty(), 0) == headers_spec(
                    d@,
                    p as int,
                    request@.headers,
                    content_length as nat,
                ),
            invariant
                e0 <= p <= d@.len(),
                request@.method == first.method,
                request@.url == first.url,
                request@.query_string == first.query_string,
                request@.content == Seq::<char>::empty(),
            ensures
                headers_spec(d@, e0 as int, Map::empty(), 0) == (
                    request@.headers,
                    content_length as nat,
                    p as int,
                ),
                request@.method == first.method,
                request@.url == first.url,
                request@.query_string == first.query_string,
                request@.content == Seq::<char>::empty(),
                p <= d@.len(),
            decreases d@.len() - p,
        {
            if p >= d.len() {
                break;
            }
            let e = next_line_end(d, p);
            let more = request.read_header_line(vstd::slice::slice_subrange(d, p, e), &mut content_length);
            p = e;
            if !more {
                break;
            }
        }
        if content_length > 0 && content_length <= d.len() - p {
            let bytes = vstd::slice::slice_to_vec(vstd::slice::slice_subrange(d, p, p + content_length));
            request.set_content_bytes(bytes);
        }
        Ok(request)
    }
}

/// A cookie as a response sets it: name, value and expiry (a timestamp and
/// the nanoseconds past it).
pub struct SetCookie {
    name: String,
    value: String,
    expiry: Option<(i64, u32)>,
}

/// Whether an expiry, if there is one, lies in the range of timestamps, with
/// a fraction of a second past its timestamp.
pub open spec fn expiry_ok(e: Option<(i64, u32)>) -> bool {
    match e {
        Some((t, n)) => timestamp_in_range(t as int) && subsecond(n),
        None => true,
    }
}

/// What a response is made of, as mathematical values.
pub struct ResponseModel {
    pub code: u16,
    pub content_type: Seq<char>,
    pub redirect: Seq<char>,
    pub body: Seq<char>,
    pub cookies: Seq<(Seq<char>, Seq<char>, Option<(i64, u32)>)>,
}

/// The `Set-Cookie` header line for a cookie.
pub open spec fn cookie_header(c: (Seq<char>, Seq<char>, Option<(i64, u32)>)) -> Seq<char> {
    "Set-Cookie: "@ + c.0 + "="@ + c.1 + ";"@ + match c.2 {
        Some((t, n)) => " Max-Age:"@ + utc_text(t, n),
        None => Seq::<char>::empty(),
    } + "\r\n"@
}

/// The `Set-Cookie` header lines for a list of cookies, in order.
pub open spec fn cookie_headers(cs: Seq<(Seq<char>, Seq<char>, Option<(i64, u32)>)>) -> Seq<char>
    decreases cs.len(),
{
    if cs.len() == 0 {
        Seq::empty()
    } else {
        cookie_headers(cs.drop_last()) + cookie_header(cs.last())
    }
}

/// The header lines after `Content-Length`: `Location` when there is a
/// redirect, then one `Set-Cookie` per cookie.
pub open spec fn extra_headers(m: ResponseModel) -> Seq<char> {
    (if m.redirect.len() > 0 {
        "Location: "@ + m.redirect + "\r\n"@
    } else {
        Seq::<char>::empty()
    }) + cookie_headers(m.cookies)
}

/// A plain-text response with this code and body.
pub open spec fn plain(code: u16, body: Seq<char>) -> ResponseModel {
    ResponseModel {
        code,
        content_type: "text/plain"@,
        redirect: Seq::empty(),
        body,
        cookies: Seq::empty(),
    }
}

/// A 200 response with an HTML page.
pub open spec fn html_page(body: Seq<char>) -> ResponseModel {
    ResponseModel {
        code: 200,
        content_type: "text/html"@,
        redirect: Seq::empty(),
        body,
        cookies: Seq::empty(),
    }
}

/// The text of a response: status line, headers, blank line, body. The
/// `Content-Length` is the body's length in UTF-8 bytes.
pub open spec fn response_text(m: ResponseModel) -> Seq<char> {
    "HTTP/1.1 "@ + decimal(m.code as nat) + " \r\nContent-Type: "@ + m.content_type
        + "\r\nContent-Length: "@ + decimal(encode_utf8(m.body).len()) + "\r\n"@ + extra_headers(m)
        + "\r\n"@ + m.body
}

/// A response to send back.
pub struct Response {
    code: u16,
    content_type: String,
    redirect: String,
    body: String,
    cookies: Vec<SetCookie>,
}

impl View for Response {
    type V = ResponseModel;

    closed spec fn view(&self) -> ResponseModel {
        ResponseModel {
            code: self.code,
            content_type: self.content_type@,
            redirect: self.redirect@,
            body: self.body@,
            cookies: self.cookies@.map_values(
                |c: SetCookie| (c.name@, c.value@, c.expiry),
            ),
        }
    }
}

impl Response {
    #[verifier::type_invariant]
    closed spec fn inv(self) -> bool {
        forall|i: int|
            0 <= i < self.cookies@.len() ==> expiry_ok((#[trigger] self.cookies@[i]).expiry)
    }

    pub fn redirect(&self) -> (r: &str)
        ensures
            r@ == self@.redirect,
    {
        self.redirect.as_str()
    }

    pub fn set_redirect(&mut self, path: &str)
        ensures
            final(self)@ == (ResponseModel { redirect: path@, ..old(self)@ }),
    {
        proof {
            use_type_invariant(&*self);
        }
        self.redirect = path.to_owned();
    }

    /// Adds a cookie for the response to set.
    pub fn set_cookie<C: Cookie>(&mut self, cookie: &C)
        requires
            cookie.expiry_defined(),
        ensures
            final(self)@ == (ResponseModel {
                cookies: old(self)@.cookies.push(
                    (
                        cookie.cookie_name(),
                        cookie.cookie_value(),
                        match cookie.expiry() {
                            Some((t, n)) => Some((t as i64, n)),
                            None => None,
                        },
                    ),
                ),
                ..old(self)@
            }),
    {
        let c = SetCookie {
            name: cookie.name().to_owned(),
            value: cookie.value().to_owned(),
            expiry: cookie.get_expiry(),
        };
        proof {
            use_type_invariant(&*self);
        }
        let mut cs: Vec<SetCookie> = Vec::new();
        std::mem::swap(&mut cs, &mut self.cookies);
        cs.push(c);
        self.cookies = cs;
        assert(self@.cookies =~= old(self)@.cookies.push(
            (
                cookie.cookie_name(),
                cookie.cookie_value(),
                match cookie.expiry() {
                    Some((t, n)) => Some((t as i64, n)),
                    None => None,
                },
            ),
        ));
    }

    pub fn create(code: u16, content_type: &str, body: &str) -> (r: Response)
        ensures
            r@ == (ResponseModel {
                code,
                content_type: content_type@,
                redirect: Seq::empty(),
                body: body@,
                cookies: Seq::empty(),
            }),
    {
        let r = Response {
            code,
            content_type: content_type.to_owned(),
            redirect: String::new(),
            body: body.to_owned(),
            cookies: Vec::new(),
        };
        assert(r@.cookies =~= Seq::<(Seq<char>, Seq<char>, Option<(i64, u32)>)>::empty());
        r
    }

    pub fn create_and_set_redirect(code: u16, redirect: &str) -> (r: Response)
        ensures
            r@ == (ResponseModel {
                code,
                content_type: "text/plain"@,
                redirect: redirect@,
                body: Seq::empty(),
                cookies: Seq::empty(),
            }),
    {
        let r = Response {
            code,
            content_type: "text/plain".to_owned(),
            redirect: redirect.to_owned(),
            body: String::new(),
            cookies: Vec::new(),
        };
        assert(r@.cookies =~= Seq::<(Seq<char>, Seq<char>, Option<(i64, u32)>)>::empty());
        r
    }

    /// The header lines that follow `Content-Length`.
    #[verifier::spinoff_prover]
    fn generate_headers(&self) -> (r: String)
        ensures
            r@ == extra_headers(self@),
    {
        proof {
            use_type_invariant(self);
        }
        let mut more_headers = String::new();
        if !self.redirect.as_str().is_empty() {
            more_headers.append("Location: ");
            more_headers.append(self.redirect.as_str());
            more_headers.append("\r\n");
        }
        let ghost prefix = more_headers@;
        let ghost cs = self@.cookies;
        let mut i: usize = 0;
        assert(cs.take(0) =~= Seq::<(Seq<char>, Seq<char>, Option<(i64, u32)>)>::empty());
        while i < self.cookies.len()
            invariant
                i <= self.cookies@.len() == cs.len(),
                cs == self@.cookies,
                forall|k: int|
                    0 <= k < self.cookies@.len() ==> expiry_ok((#[trigger] self.cookies@[k]).expiry),
                more_headers@ == prefix + cookie_headers(cs.take(i as int)),
            decreases self.cookies.len() - i,
        {
            let c = &self.cookies[i];
            more_headers.append("Set-Cookie: ");
            more_headers.append(c.name.as_str());
            more_headers.append("=");
            more_headers.append(c.value.as_str());
            more_headers.append(";");
            match c.expiry {
                Some((t, n)) => {
                    let text = match format_utc(t, n) {
                        Some(x) => x,
                        None => String::new(),
                    };
                    more_headers.append(" Max-Age:");
                    more_headers.append(text.as_str());
                },
                None => {},
            }
            more_headers.append("\r\n");
            assert(cs.take(i + 1).drop_last() =~= cs.take(i as int));
            i = i + 1;
        }
        assert(cs.take(cs.len() as int) =~= cs);
        more_headers
    }

    /// The bytes to send: the response text in UTF-8.
    pub fn generate(&self) -> (r: Vec<u8>)
        ensures
            r@ == encode_utf8(response_text(self@)),
    {
        let mut text = String::new();
        text.append("HTTP/1.1 ");
        text.append(decimal_string(self.code as u64).as_str());
        text.append(" \r\nContent-Type: ");
        text.append(self.content_type.as_str());
        text.append("\r\nContent-Length: ");
        let body_bytes = self.body.as_str().as_bytes().len();
        text.append(decimal_string(body_bytes as u64).as_str());
        text.append("\r\n");
        text.append(self.generate_headers().as_str());
        text.append("\r\n");
        text.append(self.body.as_str());
        vstd::slice::slice_to_vec(text.as_str().as_bytes())
    }
}

} // verus!

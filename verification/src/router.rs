//! Request routing, and matching URLs against path formats with `:variable`
//! segments.
use vstd::prelude::*;
use crate::http::{Method, Request, Response, ResponseModel};
use crate::text::{chars_eq, chars_of, split_char, split_chars, str_eq, string_of_all};

verus! {

/// How a segment of a path format matched a segment of a URL.
pub enum UrlTokenType {
    /// A literal segment that the URL repeats.
    MatchingConstant,
    /// A `:variable` segment, with the URL segment it stands for.
    MatchingVariable(String),
}

/// Whether a format segment is a variable, that is, starts with `:`.
pub open spec fn is_variable(format_segment: Seq<char>) -> bool {
    format_segment.len() > 0 && format_segment[0] == ':'
}

/// Whether a format segment accepts a URL segment: a variable accepts any,
/// a literal only itself.
pub open spec fn segment_matches(format_segment: Seq<char>, url_segment: Seq<char>) -> bool {
    is_variable(format_segment) || format_segment == url_segment
}

/// Matches one segment of a format against one segment of a URL.
pub fn get_token(format_segment: &[char], url_segment: &[char]) -> (r: Option<UrlTokenType>)
    ensures
        r is None <==> !segment_matches(format_segment@, url_segment@),
        r matches Some(UrlTokenType::MatchingVariable(v)) ==> is_variable(format_segment@)
            && v@ == url_segment@,
        r matches Some(UrlTokenType::MatchingConstant) ==> !is_variable(format_segment@)
            && format_segment@ == url_segment@,
{
    if format_segment.len() > 0 && format_segment[0] == ':' {
        Some(UrlTokenType::MatchingVariable(string_of_all(url_segment)))
    } else if chars_eq(format_segment, url_segment) {
        Some(UrlTokenType::MatchingConstant)
    } else {
        None
    }
}

/// The URL segments that stand for the variables among the first `n`
/// format segments, in order.
pub open spec fn captures(fs: Seq<Seq<char>>, us: Seq<Seq<char>>, n: int) -> Seq<Seq<char>>
    decreases n,
{
    if n <= 0 {
        Seq::empty()
    } else if is_variable(fs[n - 1]) {
        captures(fs, us, n - 1).push(us[n - 1])
    } else {
        captures(fs, us, n - 1)
    }
}

/// What matching `url` against `format` gives: when both have as many
/// `/`-separated segments and each format segment accepts the URL segment at
/// its place, the URL segments at the variables' places.
pub open spec fn match_spec(format: Seq<char>, url: Seq<char>) -> Option<Seq<Seq<char>>> {
    let fs = split_char(format, '/');
    let us = split_char(url, '/');
    if fs.len() == us.len() && forall|i: int|
        0 <= i < fs.len() ==> segment_matches(#[trigger] fs[i], us[i]) {
        Some(captures(fs, us, fs.len() as int))
    } else {
        None
    }
}

/// Matches a URL against a path format such as `/news/:id`, giving the URL
/// segments that stand for its variables.
pub fn match_dynamic_url(format: &str, url: String) -> (r: Option<Vec<String>>)
    ensures
        match match_spec(format@, url@) {
            None => r is None,
            Some(vs) => r matches Some(v) && v@.len() == vs.len() && forall|i: int|
                0 <= i < vs.len() ==> #[trigger] v@[i]@ == vs[i],
        },
{
    let mut result: Vec<String> = Vec::new();
    let format_chars = chars_of(format);
    let url_chars = chars_of(url.as_str());
    let fs = split_chars(format_chars.as_slice(), '/');
    let us = split_chars(url_chars.as_slice(), '/');
    let ghost sfs = split_char(format@, '/');
    let ghost sus = split_char(url@, '/');
    if fs.len() != us.len() {
        return None;
    }
    let mut i: usize = 0;
    while i < fs.len()
        invariant
            i <= fs@.len() == us@.len() == sfs.len() == sus.len(),
            sfs == split_char(format@, '/'),
            sus == split_char(url@, '/'),
            forall|k: int| 0 <= k < fs@.len() ==> #[trigger] fs@[k]@ == sfs[k],
            forall|k: int| 0 <= k < us@.len() ==> #[trigger] us@[k]@ == sus[k],
            forall|k: int| 0 <= k < i ==> segment_matches(#[trigger] sfs[k], sus[k]),
            result@.len() == captures(sfs, sus, i as int).len(),
            forall|k: int|
                0 <= k < result@.len() ==> #[trigger] result@[k]@ == captures(sfs, sus, i as int)[k],
        decreases fs.len() - i,
    {
        assert(fs@[i as int]@ == sfs[i as int]);
        assert(us@[i as int]@ == sus[i as int]);
        match get_token(fs[i].as_slice(), us[i].as_slice()) {
            Some(UrlTokenType::MatchingConstant) => {},
            Some(UrlTokenType::MatchingVariable(variable)) => {
                result.push(variable);
            },
            None => {
                return None;
            },
        }
        i = i + 1;
    }
    Some(result)
}

/// How many of the first `n` format segments are variables.
pub open spec fn variable_count(fs: Seq<Seq<char>>, n: int) -> nat
    decreases n,
{
    if n <= 0 {
        0
    } else if is_variable(fs[n - 1]) {
        variable_count(fs, n - 1) + 1
    } else {
        variable_count(fs, n - 1)
    }
}

proof fn lemma_captures_len(fs: Seq<Seq<char>>, us: Seq<Seq<char>>, n: int)
    ensures
        captures(fs, us, n).len() == variable_count(fs, n),
    decreases n,
{
    if n > 0 {
        lemma_captures_len(fs, us, n - 1);
    }
}

/// A match gives one URL segment per variable of the format.
pub proof fn lemma_one_capture_per_variable(format: Seq<char>, url: Seq<char>)
    ensures
        match_spec(format, url) matches Some(vs) ==> vs.len() == variable_count(
            split_char(format, '/'),
            split_char(format, '/').len() as int,
        ),
{
    let fs = split_char(format, '/');
    lemma_captures_len(fs, split_char(url, '/'), fs.len() as int);
}

/// Every path format matches its own text.
pub proof fn lemma_format_matches_itself(format: Seq<char>)
    ensures
        match_spec(format, format) is Some,
{
    let fs = split_char(format, '/');
    assert forall|i: int| 0 <= i < fs.len() implies segment_matches(#[trigger] fs[i], fs[i]) by {}
}

/// Where a request goes: answered at once, or handed to the contact form or
/// to the postbox.
pub enum Route {
    Reply(Response),
    Contact,
    Postbox,
}

/// The route a request with this method and URL takes.
pub open spec fn route_spec(method: Method, url: Seq<char>) -> Option<(u16, Seq<char>)> {
    if method == Method::GET && url == "/status"@ {
        Some((200u16, "up"@))
    } else if method == Method::GET && url == "/contact"@ {
        None
    } else if method == Method::POST && url == "/postbox"@ {
        None
    } else if method == Method::GET {
        Some((501u16, "Not implemented"@))
    } else {
        Some((404u16, "Not found"@))
    }
}

/// Only `GET /status` is answered `up` with 200, and every request that is
/// neither a `GET` nor `POST /postbox` is answered 404 `Not found`.
pub proof fn lemma_route_methods(method: Method, url: Seq<char>)
    ensures
        route_spec(method, url) matches Some((code, _)) && code == 200 ==> method == Method::GET
            && url == "/status"@,
        method != Method::GET && !(method == Method::POST && url == "/postbox"@) ==> route_spec(
            method,
            url,
        ) == Some((404u16, "Not found"@)),
        method == Method::GET && url == "/status"@ ==> route_spec(method, url) == Some(
            (200u16, "up"@),
        ),
{
}

/// Every `GET` other than `/status` and `/contact` is answered 501
/// `Not implemented`; `GET /contact` and `POST /postbox` get no immediate
/// answer.
pub proof fn lemma_route_get_and_handlers(method: Method, url: Seq<char>)
    ensures
        method == Method::GET && url != "/status"@ && url != "/contact"@ ==> route_spec(method, url)
            == Some((501u16, "Not implemented"@)),
        method == Method::GET && url == "/contact"@ ==> route_spec(method, url) is None,
        method == Method::POST && url == "/postbox"@ ==> route_spec(method, url) is None,
        route_spec(method, url) is None ==> (method == Method::GET && url == "/contact"@) || (method
            == Method::POST && url == "/postbox"@),
{
    reveal_strlit("/status");
    reveal_strlit("/contact");
    assert("/status"@.len() != "/contact"@.len());
}

/// Routes a request: `GET /status` is answered `up`, `GET /contact` goes to
/// the contact form, `POST /postbox` to the postbox, any other `GET` is
/// answered 501 and anything else 404.
pub fn route(request: &Request) -> (r: Route)
    ensures
        request@.method == Method::GET && request@.url == "/contact"@ <==> r is Contact,
        request@.method == Method::POST && request@.url == "/postbox"@ <==> r is Postbox,
        r matches Route::Reply(resp) ==> route_spec(request@.method, request@.url) matches Some(
            (code, body),
        ) && resp@ == (ResponseModel {
            code,
            content_type: "text/plain"@,
            redirect: Seq::empty(),
            body,
            cookies: Seq::empty(),
        }),
{
    let method = request.method();
    let url = request.url();
    proof {
        reveal_strlit("/status");
        reveal_strlit("/contact");
        assert("/status"@.len() != "/contact"@.len());
    }
    match method {
        Method::GET => {
            if str_eq(url, "/status") {
                Route::Reply(Response::create(200, "text/plain", "up"))
            } else if str_eq(url, "/contact") {
                Route::Contact
            } else {
                Route::Reply(Response::create(501, "text/plain", "Not implemented"))
            }
        },
        Method::POST => {
            if str_eq(url, "/postbox") {
                Route::Postbox
            } else {
                Route::Reply(Response::create(404, "text/plain", "Not found"))
            }
        },
        _ => Route::Reply(Response::create(404, "text/plain", "Not found")),
    }
}

} // verus!

use mauveweasel::cookie::parse;
use mauveweasel::http::{Method, Request, Response};
use mauveweasel::router::{get_token, match_dynamic_url, route, Route, UrlTokenType};

fn request(text: &str) -> Request {
    match Request::from_bytes(text.as_bytes(), 1 << 20) {
        Ok(r) => r,
        Err(e) => panic!("request refused: {}", e),
    }
}

fn text_of(response: &Response) -> String {
    String::from_utf8(response.generate()).unwrap()
}

#[test]
fn cookie_parse_keeps_pairs() {
    let m = parse("  a=1; b = 2 ;c;d=x=y;  e= 5 ");
    assert_eq!(m.len(), 3);
    assert_eq!(m.get("a").map(|s| s.as_str()), Some("1"));
    assert_eq!(m.get("b").map(|s| s.as_str()), Some("2"));
    assert_eq!(m.get("e").map(|s| s.as_str()), Some("5"));
    assert!(!m.contains_key("c"));
    assert!(!m.contains_key("d"));
}

#[test]
fn cookie_parse_later_pair_wins() {
    let m = parse("k=1; k=2");
    assert_eq!(m.len(), 1);
    assert_eq!(m.get("k").map(|s| s.as_str()), Some("2"));
}

#[test]
fn cookie_parse_empty() {
    assert_eq!(parse("").len(), 0);
}

#[test]
fn request_line_headers_and_content() {
    let r = request(
        "POST /postbox?x=1&y=2 HTTP/1.1\r\nHost: example.org\r\nContent-Type: application/x-www-form-urlencoded\r\nContent-Length: 4\r\n\r\nbodyEXTRA",
    );
    assert_eq!(r.method(), Method::POST);
    assert_eq!(r.url(), "/postbox");
    assert_eq!(r.query_string(), "x=1&y=2");
    assert_eq!(r.raw_headers().get("host").map(|s| s.as_str()), Some("example.org"));
    assert_eq!(
        r.raw_headers().get("content-type").map(|s| s.as_str()),
        Some("application/x-www-form-urlencoded")
    );
    assert!(!r.raw_headers().contains_key("content-length"));
    assert_eq!(r.content(), "body");
}

#[test]
fn request_without_query_or_content() {
    let r = request("GET /status HTTP/1.1\r\n\r\n");
    assert_eq!(r.method(), Method::GET);
    assert_eq!(r.url(), "/status");
    assert_eq!(r.query_string(), "");
    assert_eq!(r.raw_headers().len(), 0);
    assert_eq!(r.content(), "");
}

#[test]
fn request_methods() {
    assert_eq!(request("PATCH /a HTTP/1.1\r\n\r\n").method(), Method::PATCH);
    assert_eq!(request("DELETE /a HTTP/1.1\r\n\r\n").method(), Method::DELETE);
}

#[test]
fn request_errors() {
    assert_eq!(Request::from_bytes(b"GET /a HTTP/1.0\r\n\r\n", 100).err(), Some("Error parsing header"));
    assert_eq!(Request::from_bytes(b"GET /a\r\n\r\n", 100).err(), Some("Error parsing header"));
    assert_eq!(Request::from_bytes(b"PUT /a HTTP/1.1\r\n\r\n", 100).err(), Some("Invalid method"));
    assert_eq!(
        Request::from_bytes(b"GET /\xff HTTP/1.1\r\n\r\n", 100).err(),
        Some("Header could not be converted to UTF-8")
    );
}

#[test]
fn request_header_rules() {
    let r = request(
        "GET /a HTTP/1.1\r\n  X-Thing :  some value  \r\nnocolon\r\nContent-Length: nope\r\nA: b:c\r\n\r\n",
    );
    assert_eq!(r.raw_headers().get("x-thing").map(|s| s.as_str()), Some("some value"));
    assert_eq!(r.raw_headers().get("a").map(|s| s.as_str()), Some("b:c"));
    assert_eq!(r.raw_headers().len(), 2);
    assert_eq!(r.content(), "");
}

#[test]
fn request_content_cut_by_size_limit() {
    let data = b"POST /p HTTP/1.1\r\nContent-Length: 10\r\n\r\n0123456789";
    let whole = Request::from_bytes(data, 1000).ok().unwrap();
    assert_eq!(whole.content(), "0123456789");
    let cut = Request::from_bytes(data, (data.len() - 1) as u64).ok().unwrap();
    assert_eq!(cut.content(), "");
}

#[test]
fn request_content_not_utf8_is_dropped() {
    let r = Request::from_bytes(b"POST /p HTTP/1.1\r\nContent-Length: 2\r\n\r\n\xff\xfe", 1000).ok().unwrap();
    assert_eq!(r.content(), "");
}

#[test]
fn request_read_line_by_line() {
    let mut r = Request::from_request_line(b"GET /x?q HTTP/1.1\r\n").ok().unwrap();
    let mut length: usize = 0;
    assert!(r.read_header_line(b"Content-Length: 3\r\n", &mut length));
    assert_eq!(length, 3);
    assert!(r.read_header_line(b"Cookie: a=b\r\n", &mut length));
    assert!(!r.read_header_line(b"\r\n", &mut length));
    r.set_content_bytes(b"abc".to_vec());
    assert_eq!(r.url(), "/x");
    assert_eq!(r.query_string(), "q");
    assert_eq!(r.raw_headers().get("cookie").map(|s| s.as_str()), Some("a=b"));
    assert_eq!(r.content(), "abc");
}

#[test]
fn response_generate_plain() {
    let r = Response::create(200, "text/plain", "up");
    assert_eq!(text_of(&r), "HTTP/1.1 200 \r\nContent-Type: text/plain\r\nContent-Length: 2\r\n\r\nup");
}

#[test]
fn response_generate_counts_bytes() {
    let r = Response::create(200, "text/html", "é");
    assert_eq!(text_of(&r), "HTTP/1.1 200 \r\nContent-Type: text/html\r\nContent-Length: 2\r\n\r\né");
}

#[test]
fn response_generate_redirect() {
    let r = Response::create_and_set_redirect(303, "/");
    assert_eq!(r.redirect(), "/");
    assert_eq!(text_of(&r), "HTTP/1.1 303 \r\nContent-Type: text/plain\r\nContent-Length: 0\r\nLocation: /\r\n\r\n");
    let mut s = Response::create(302, "text/plain", "x");
    s.set_redirect("/elsewhere");
    assert_eq!(s.redirect(), "/elsewhere");
    assert_eq!(
        text_of(&s),
        "HTTP/1.1 302 \r\nContent-Type: text/plain\r\nContent-Length: 1\r\nLocation: /elsewhere\r\n\r\nx"
    );
}

#[test]
fn router_token() {
    assert!(matches!(get_token(&[':', 'i', 'd'], &['4', '2']), Some(UrlTokenType::MatchingVariable(v)) if v == "42"));
    assert!(matches!(get_token(&['n', 'e', 'w', 's'], &['n', 'e', 'w', 's']), Some(UrlTokenType::MatchingConstant)));
    assert!(get_token(&['n', 'e', 'w', 's'], &['o', 'l', 'd']).is_none());
    assert!(matches!(get_token(&[], &[]), Some(UrlTokenType::MatchingConstant)));
    assert!(get_token(&[], &['a']).is_none());
}

#[test]
fn router_match_dynamic_url() {
    assert_eq!(
        match_dynamic_url("/news/:id/:part", "/news/abc/2".to_string()),
        Some(vec!["abc".to_string(), "2".to_string()])
    );
    assert_eq!(match_dynamic_url("/news/:id", "/news/abc/2".to_string()), None);
    assert_eq!(match_dynamic_url("/news/:id", "/old/abc".to_string()), None);
    assert_eq!(match_dynamic_url("/status", "/status".to_string()), Some(vec![]));
}

#[test]
fn router_format_matches_itself() {
    assert_eq!(
        match_dynamic_url("/news/:id/x", "/news/:id/x".to_string()),
        Some(vec![":id".to_string()])
    );
    assert_eq!(match_dynamic_url("", String::new()), Some(vec![]));
}

#[test]
fn router_routes() {
    let status = route(&request("GET /status HTTP/1.1\r\n\r\n"));
    match status {
        Route::Reply(r) => assert_eq!(text_of(&r), "HTTP/1.1 200 \r\nContent-Type: text/plain\r\nContent-Length: 2\r\n\r\nup"),
        _ => panic!("status not answered"),
    }
    assert!(matches!(route(&request("GET /contact HTTP/1.1\r\n\r\n")), Route::Contact));
    assert!(matches!(route(&request("POST /postbox HTTP/1.1\r\n\r\n")), Route::Postbox));
    match route(&request("GET /other HTTP/1.1\r\n\r\n")) {
        Route::Reply(r) => assert!(text_of(&r).starts_with("HTTP/1.1 501 ") && text_of(&r).ends_with("Not implemented")),
        _ => panic!("other GET not answered"),
    }
    match route(&request("POST /contact HTTP/1.1\r\n\r\n")) {
        Route::Reply(r) => assert!(text_of(&r).starts_with("HTTP/1.1 404 ") && text_of(&r).ends_with("Not found")),
        _ => panic!("POST not answered"),
    }
    match route(&request("DELETE /postbox HTTP/1.1\r\n\r\n")) {
        Route::Reply(r) => assert!(text_of(&r).starts_with("HTTP/1.1 404 ")),
        _ => panic!("DELETE not answered"),
    }
}

#[test]
fn request_named_header_lines() {
    let mut r = Request::from_request_line(b"GET /x HTTP/1.1\r\n").ok().unwrap();
    let mut length: usize = 0;
    r.read_named_header("content-length", &[' ', '1', '2', ' '], &mut length);
    assert_eq!(length, 12);
    r.read_named_header("content-length", &['x'], &mut length);
    assert_eq!(length, 0);
    r.read_named_header(" x-a ", &[' ', 'v', ' '], &mut length);
    assert_eq!(r.raw_headers().get("x-a").map(|s| s.as_str()), Some("v"));
    r.read_named_header("Content-Length", &['5'], &mut length);
    assert_eq!(length, 0);
    assert_eq!(r.raw_headers().get("Content-Length").map(|s| s.as_str()), Some("5"));
}

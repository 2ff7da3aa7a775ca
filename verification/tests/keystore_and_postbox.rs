use mauveweasel::cookie::Cookie;
use mauveweasel::http::Request;
use mauveweasel::options::Config;
use mauveweasel::postbox::{
    get_default_postbox_message, get_default_validation_cookie, message_from_form_pairs, Postbox,
    PostboxError, PostboxMessage, PostboxPlan, ValidationCookie,
};
use mauveweasel::string_map::StringMap;
use mauveweasel::uuid_keystore::{get_or_associate_uuid, get_value, invert_map};

fn config() -> Config {
    Config::new(None, None, None, None, None, None, None, None, None, None, None)
}

fn request(text: &str) -> Request {
    Request::from_bytes(text.as_bytes(), 1 << 20).ok().unwrap()
}

fn text_of(r: &mauveweasel::http::Response) -> String {
    String::from_utf8(r.generate()).unwrap()
}

fn message(name: &str, comment: &str, email: &str) -> PostboxMessage {
    PostboxMessage { name: name.to_string(), comment: comment.to_string(), email: email.to_string() }
}

#[test]
fn string_map_insert_and_get() {
    let mut m = StringMap::new();
    assert_eq!(m.len(), 0);
    m.insert("a".to_string(), "1".to_string());
    m.insert("b".to_string(), "2".to_string());
    m.insert("a".to_string(), "3".to_string());
    assert_eq!(m.len(), 2);
    assert_eq!(m.get("a").map(|s| s.as_str()), Some("3"));
    assert!(m.contains_key("b"));
    assert!(!m.contains_key("c"));
    let (k, v) = m.entry(1);
    assert_eq!((k.as_str(), v.as_str()), ("b", "2"));
}

#[test]
fn keystore_associates_once() {
    let mut store = StringMap::new();
    let (uuid, created) = get_or_associate_uuid(&mut store, "./newsgen/first.md");
    assert!(created);
    assert_eq!(uuid.len(), 36);
    assert_eq!(store.len(), 1);
    let (again, created_again) = get_or_associate_uuid(&mut store, "./newsgen/first.md");
    assert!(!created_again);
    assert_eq!(again, uuid);
    assert_eq!(store.len(), 1);
    let (other, created_other) = get_or_associate_uuid(&mut store, "./newsgen/second.md");
    assert!(created_other);
    assert_ne!(other, uuid);
    assert_eq!(store.len(), 2);
    assert_eq!(get_value(&store, &uuid), Some("./newsgen/first.md".to_string()));
    assert_eq!(get_value(&store, &other), Some("./newsgen/second.md".to_string()));
    assert_eq!(get_value(&store, "no-such-uuid"), None);
}

#[test]
fn keystore_invert() {
    let mut store = StringMap::new();
    store.insert("u1".to_string(), "a".to_string());
    store.insert("u2".to_string(), "b".to_string());
    let inv = invert_map(&store);
    assert_eq!(inv.len(), 2);
    assert_eq!(inv.get("a").map(|s| s.as_str()), Some("u1"));
    assert_eq!(inv.get("b").map(|s| s.as_str()), Some("u2"));
    assert!(!inv.contains_key("u1"));
}

#[test]
fn keystore_existing_value_keeps_uuid() {
    let mut store = StringMap::new();
    store.insert("fixed-uuid".to_string(), "path".to_string());
    assert_eq!(get_or_associate_uuid(&mut store, "path"), ("fixed-uuid".to_string(), false));
}

#[test]
fn postbox_accepts_message() {
    let p = Postbox::new("./postbox", true, "name=Al&comment=Hi+there%21&email=").ok().unwrap();
    let (file, text) = p.write_plan().unwrap();
    assert_eq!(text, "Name: Al\n\nHi there!");
    assert_eq!(file.len(), 40);
    assert!(file.ends_with(".txt"));
    assert_eq!(file.chars().nth(14), Some('4'));
}

#[test]
fn postbox_honeypot_writes_nothing() {
    let p = Postbox::new("./postbox", true, "name=Al&comment=Hi&email=bot%40spam").ok().unwrap();
    assert!(p.write_plan().is_none());
}

#[test]
fn postbox_errors() {
    assert!(matches!(Postbox::new("./postbox", false, "name=a&comment=b&email="), Err(PostboxError::BadPath)));
    assert!(matches!(Postbox::new("./postbox", true, "name=a&comment=b"), Err(PostboxError::BadParse)));
    assert!(matches!(Postbox::new("./postbox", true, "name=a&name=b&comment=b&email="), Err(PostboxError::BadParse)));
    match Postbox::new("./postbox", true, "name=&comment=&email=") {
        Err(PostboxError::MissingField(errors, m)) => {
            assert_eq!(errors, vec!["Please enter a name.".to_string(), "Please enter a comment.".to_string()]);
            assert_eq!(m.name, "");
        },
        _ => panic!("missing fields not reported"),
    }
    match Postbox::new("./postbox", true, "name=Al&comment=&email=") {
        Err(PostboxError::MissingField(errors, m)) => {
            assert_eq!(errors, vec!["Please enter a comment.".to_string()]);
            assert_eq!(m.name, "Al");
        },
        _ => panic!("missing comment not reported"),
    }
}

#[test]
fn postbox_message_from_pairs() {
    let pairs = vec![
        ("email".to_string(), "".to_string()),
        ("other".to_string(), "x".to_string()),
        ("comment".to_string(), "c".to_string()),
        ("name".to_string(), "n".to_string()),
    ];
    let m = message_from_form_pairs(&pairs).unwrap();
    assert_eq!((m.name.as_str(), m.comment.as_str(), m.email.as_str()), ("n", "c", ""));
    assert!(message_from_form_pairs(&vec![("name".to_string(), "n".to_string())]).is_none());
    let d = get_default_postbox_message();
    assert_eq!((d.name.as_str(), d.comment.as_str(), d.email.as_str()), ("", "", ""));
}

#[test]
fn postbox_plan_answers() {
    let none = Postbox::plan(&request("POST /postbox HTTP/1.1\r\n\r\n"), &config(), true);
    match none {
        PostboxPlan::Reply(r) => assert!(text_of(&r).starts_with("HTTP/1.1 400 ") && text_of(&r).ends_with("No content-type provided")),
        _ => panic!("no content type"),
    }
    let wrong = Postbox::plan(&request("POST /postbox HTTP/1.1\r\nContent-Type: text/plain\r\n\r\n"), &config(), true);
    match wrong {
        PostboxPlan::Reply(r) => assert!(text_of(&r).ends_with("Incorrect content-type")),
        _ => panic!("wrong content type"),
    }
    let form = "POST /postbox HTTP/1.1\r\nContent-Type: application/x-www-form-urlencoded\r\nContent-Length: 23\r\n\r\nname=A&comment=B&email=";
    match Postbox::plan(&request(form), &config(), false) {
        PostboxPlan::Reply(r) => assert!(text_of(&r).starts_with("HTTP/1.1 500 ") && text_of(&r).ends_with("Internal server error: bad postbox path.")),
        _ => panic!("bad path"),
    }
    assert!(matches!(Postbox::plan(&request(form), &config(), true), PostboxPlan::Write(_)));
    let bad = "POST /postbox HTTP/1.1\r\nContent-Type: application/x-www-form-urlencoded\r\nContent-Length: 6\r\n\r\nname=A";
    match Postbox::plan(&request(bad), &config(), true) {
        PostboxPlan::Reply(r) => assert!(text_of(&r).ends_with("Internal server error: Incorrect postbox format.")),
        _ => panic!("bad format"),
    }
    let empty = "POST /postbox HTTP/1.1\r\nContent-Type: application/x-www-form-urlencoded\r\nContent-Length: 22\r\n\r\nname=&comment=B&email=";
    match Postbox::plan(&request(empty), &config(), true) {
        PostboxPlan::Invalid(errors, _) => assert_eq!(errors, vec!["Please enter a name.".to_string()]),
        _ => panic!("missing name"),
    }
}

#[test]
fn postbox_after_write() {
    let mut cookie = ValidationCookie::from_parts(
        "abc".to_string(),
        1527854400,
        0,
        vec!["Please enter a name.".to_string()],
        message("", "x", ""),
    );
    let (r, changed) = Postbox::after_write(&mut cookie, true);
    assert!(changed);
    assert!(cookie.validation_errors.is_empty());
    assert_eq!(cookie.contents.comment, "");
    assert_eq!(text_of(&r), "HTTP/1.1 303 \r\nContent-Type: text/plain\r\nContent-Length: 0\r\nLocation: /\r\n\r\n");
    let (r2, changed2) = Postbox::after_write(&mut cookie, true);
    assert!(!changed2);
    assert!(text_of(&r2).starts_with("HTTP/1.1 303 "));
    let (r3, changed3) = Postbox::after_write(&mut cookie, false);
    assert!(!changed3);
    assert!(text_of(&r3).ends_with("Internal server error: Could not write postbox file."));
}

#[test]
fn postbox_reject_sets_cookie() {
    let mut cookie = ValidationCookie::from_parts("abc".to_string(), 1527854400, 0, vec![], get_default_postbox_message());
    let r = Postbox::reject(
        &mut cookie,
        vec!["Please enter a comment.".to_string()],
        message("Al", "", ""),
        &config(),
    );
    assert_eq!(cookie.validation_errors, vec!["Please enter a comment.".to_string()]);
    assert_eq!(cookie.contents.name, "Al");
    assert_eq!(
        text_of(&r),
        "HTTP/1.1 303 \r\nContent-Type: text/plain\r\nContent-Length: 0\r\nLocation: /d/contact\r\nSet-Cookie: postbox_validation=abc; Max-Age:2018-06-02 12:00:00 UTC\r\n\r\n"
    );
}

#[test]
fn validation_cookie_parts() {
    let c = ValidationCookie::from_parts("id-1".to_string(), 100, 7, vec![], get_default_postbox_message());
    assert_eq!(c.name(), "postbox_validation");
    assert_eq!(c.value(), "id-1");
    assert_eq!(c.max_age(), Some(86400));
    assert_eq!(c.get_expiry(), Some((86500, 7)));
    assert_eq!(c.creation(), 100);
    assert_eq!(c.creation_nanos(), 7);
    assert_eq!(c.save_path(&config()), "./cookiejar/id-1.bck");
    let d = get_default_validation_cookie();
    assert_eq!(d.value().len(), 36);
    assert!(d.validation_errors.is_empty());
    assert_eq!(d.contents.name, "");
}

#[test]
fn validation_cookie_session_file() {
    let r = request("GET /contact HTTP/1.1\r\nCookie: other=1; postbox_validation=xyz\r\n\r\n");
    assert_eq!(ValidationCookie::session_file(&r, &config()), Some("./cookiejar/session/xyz.bck".to_string()));
    let r2 = request("GET /contact HTTP/1.1\r\nCookie: other=1\r\n\r\n");
    assert_eq!(ValidationCookie::session_file(&r2, &config()), None);
    let r3 = request("GET /contact HTTP/1.1\r\n\r\n");
    assert_eq!(ValidationCookie::session_file(&r3, &config()), None);
}

#[test]
fn postbox_reject_keeps_fraction_of_second() {
    let mut cookie = ValidationCookie::from_parts("abc".to_string(), 1527854400, 500_000_000, vec![], get_default_postbox_message());
    let r = Postbox::reject(&mut cookie, vec!["Please enter a name.".to_string()], message("", "x", ""), &config());
    assert_eq!(cookie.creation_nanos(), 500_000_000);
    assert_eq!(
        text_of(&r),
        "HTTP/1.1 303 \r\nContent-Type: text/plain\r\nContent-Length: 0\r\nLocation: /d/contact\r\nSet-Cookie: postbox_validation=abc; Max-Age:2018-06-02 12:00:00.500 UTC\r\n\r\n"
    );
}

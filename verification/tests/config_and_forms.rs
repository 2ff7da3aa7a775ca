use mauveweasel::comment::Comment;
use mauveweasel::contactform::{respond_rendered, CommentValidation};
use mauveweasel::datalayer::{file_of, object_file};
use mauveweasel::helpers::ifval_takes_block;
use mauveweasel::options::Config;
use mauveweasel::settings::Settings;
use mauveweasel::user::User;

fn empty_config() -> Config {
    Config::new(None, None, None, None, None, None, None, None, None, None, None)
}

fn full_config() -> Config {
    Config::new(
        Some("0.0.0.0".to_string()),
        Some(8080),
        Some("/srv/postbox".to_string()),
        Some(100),
        Some("/srv/templates".to_string()),
        Some("/site".to_string()),
        Some("/srv/cookies".to_string()),
        Some("/srv/cache".to_string()),
        Some("/srv/news".to_string()),
        Some(2),
        Some("/srv/data".to_string()),
    )
}

#[test]
fn config_defaults() {
    let c = empty_config();
    assert_eq!(c.ip(), "127.0.0.1");
    assert_eq!(c.port(), 3000);
    assert_eq!(c.postbox_directory(), "./postbox");
    assert_eq!(c.max_request_size(), 4096);
    assert_eq!(c.templates_directory(), "./templates");
    assert_eq!(c.reverse_proxy_prefix(), "/d");
    assert_eq!(c.cookiejar_directory(), "./cookiejar");
    assert_eq!(c.cache_directory(), "./cache");
    assert_eq!(c.newsgen_directory(), "./newsgen");
    assert_eq!(c.newsgen_lru_cache_size(), 8);
    assert_eq!(c.data_directory(), "./data");
    assert_eq!(c.get_host(), "127.0.0.1:3000");
}

#[test]
fn config_given_values() {
    let c = full_config();
    assert_eq!(c.ip(), "0.0.0.0");
    assert_eq!(c.port(), 8080);
    assert_eq!(c.postbox_directory(), "/srv/postbox");
    assert_eq!(c.max_request_size(), 100);
    assert_eq!(c.templates_directory(), "/srv/templates");
    assert_eq!(c.reverse_proxy_prefix(), "/site");
    assert_eq!(c.cookiejar_directory(), "/srv/cookies");
    assert_eq!(c.cache_directory(), "/srv/cache");
    assert_eq!(c.newsgen_directory(), "/srv/news");
    assert_eq!(c.newsgen_lru_cache_size(), 2);
    assert_eq!(c.data_directory(), "/srv/data");
    assert_eq!(c.get_host(), "0.0.0.0:8080");
}

#[test]
fn config_host_with_port_zero() {
    let c = Config::new(Some("::1".to_string()), Some(0), None, None, None, None, None, None, None, None, None);
    assert_eq!(c.get_host(), "::1:0");
}

#[test]
fn settings_default_port() {
    assert_eq!(Settings::new().port(), 3001);
}

#[test]
fn comment_honeypot() {
    let good = Comment::new("support@ne0ndrag0n.com".to_string(), "hello".to_string());
    assert!(good.validate());
    assert_eq!(good.honeypot(), "support@ne0ndrag0n.com");
    assert_eq!(good.comment(), "hello");
    let bad = Comment::new("someone@example.com".to_string(), "spam".to_string());
    assert!(!bad.validate());
    assert!(!Comment::new(String::new(), String::new()).validate());
}

#[test]
fn contact_page_rendered() {
    let r = respond_rendered(Ok("<p>form</p>".to_string()));
    assert_eq!(
        String::from_utf8(r.generate()).unwrap(),
        "HTTP/1.1 200 \r\nContent-Type: text/html\r\nContent-Length: 11\r\n\r\n<p>form</p>"
    );
}

#[test]
fn contact_page_render_error() {
    let r = respond_rendered(Err("template not found".to_string()));
    assert_eq!(
        String::from_utf8(r.generate()).unwrap(),
        "HTTP/1.1 500 \r\nContent-Type: text/plain\r\nContent-Length: 25\r\n\r\nerror: template not found"
    );
}

#[test]
fn comment_validation_fields() {
    let v = CommentValidation { name_valid: Some(true), comment_valid: None };
    assert_eq!(v.name_valid, Some(true));
    assert_eq!(v.comment_valid, None);
}

#[test]
fn ifval_decision() {
    assert!(ifval_takes_block(Some("a"), Some("a")));
    assert!(!ifval_takes_block(Some("a"), Some("b")));
    assert!(ifval_takes_block(None, None));
    assert!(ifval_takes_block(None, Some("")));
    assert!(!ifval_takes_block(Some("x"), None));
}

#[test]
fn user_parts() {
    let u = User::new("alice");
    assert_eq!(u.username(), "alice");
    let id = u.uuid().to_string();
    assert_eq!(id.len(), 36);
    assert_eq!(id.chars().nth(14), Some('4'));
    assert_ne!(User::new("alice").uuid(), id.as_str());
    let v = User::from_parts("1234".to_string(), "bob".to_string());
    assert_eq!(v.uuid(), "1234");
    assert_eq!(v.username(), "bob");
}

#[test]
fn object_files() {
    let u = User::from_parts("abcd".to_string(), "bob".to_string());
    assert_eq!(file_of(&u, &empty_config()), "./data/user/abcd.bin");
    assert_eq!(file_of(&u, &full_config()), "/srv/data/user/abcd.bin");
    assert_eq!(object_file::<User>("xyz", &empty_config()), "./data/user/xyz.bin");
}

pub mod text;
pub mod string_map;
pub mod clock;
pub mod cookie;
pub mod http;
pub mod comment;
pub mod settings;
pub mod options;
pub mod router;
pub mod uuid_text;
pub mod uuid_keystore;
pub mod form;
pub mod postbox;
pub mod lru;
pub mod markdown;
pub mod newsgen;
pub mod contactform;
pub mod helpers;
pub mod datalayer;
pub mod user;
pub mod acl;

//! The server's configuration, with the default used for each option left
//! unset.
use vstd::prelude::*;
use crate::text::{concat, decimal, decimal_string};

verus! {

/// The configuration as read from the options file; each option may be
/// absent.
pub struct Config {
    ip: Option<String>,
    port: Option<u16>,
    postbox_directory: Option<String>,
    max_request_size: Option<u64>,
    templates_directory: Option<String>,
    reverse_proxy_prefix: Option<String>,
    cookiejar_directory: Option<String>,
    cache_directory: Option<String>,
    newsgen_directory: Option<String>,
    newsgen_lru_cache_size: Option<usize>,
    data_directory: Option<String>,
}

/// The configuration, as mathematical values.
pub struct ConfigModel {
    pub ip: Option<Seq<char>>,
    pub port: Option<u16>,
    pub postbox_directory: Option<Seq<char>>,
    pub max_request_size: Option<u64>,
    pub templates_directory: Option<Seq<char>>,
    pub reverse_proxy_prefix: Option<Seq<char>>,
    pub cookiejar_directory: Option<Seq<char>>,
    pub cache_directory: Option<Seq<char>>,
    pub newsgen_directory: Option<Seq<char>>,
    pub newsgen_lru_cache_size: Option<usize>,
    pub data_directory: Option<Seq<char>>,
}

/// The view of an optional string.
pub open spec fn opt_view(o: Option<String>) -> Option<Seq<char>> {
    match o {
        Some(s) => Some(s@),
        None => None,
    }
}

/// The option's value, or `default` when it is unset.
pub open spec fn or_default<T>(o: Option<T>, default: T) -> T {
    match o {
        Some(v) => v,
        None => default,
    }
}

/// An optional string as a `&str`, or `default` when it is absent.
fn str_or<'a>(o: &'a Option<String>, default: &'a str) -> (r: &'a str)
    ensures
        r@ == or_default(opt_view(*o), default@),
{
    match o {
        Some(v) => v.as_str(),
        None => default,
    }
}

impl View for Config {
    type V = ConfigModel;

    closed spec fn view(&self) -> ConfigModel {
        ConfigModel {
            ip: opt_view(self.ip),
            port: self.port,
            postbox_directory: opt_view(self.postbox_directory),
            max_request_size: self.max_request_size,
            templates_directory: opt_view(self.templates_directory),
            reverse_proxy_prefix: opt_view(self.reverse_proxy_prefix),
            cookiejar_directory: opt_view(self.cookiejar_directory),
            cache_directory: opt_view(self.cache_directory),
            newsgen_directory: opt_view(self.newsgen_directory),
            newsgen_lru_cache_size: self.newsgen_lru_cache_size,
            data_directory: opt_view(self.data_directory),
        }
    }
}

impl Config {
    /// A configuration with the given options.
    pub fn new(
        ip: Option<String>,
        port: Option<u16>,
        postbox_directory: Option<String>,
        max_request_size: Option<u64>,
        templates_directory: Option<String>,
        reverse_proxy_prefix: Option<String>,
        cookiejar_directory: Option<String>,
        cache_directory: Option<String>,
        newsgen_directory: Option<String>,
        newsgen_lru_cache_size: Option<usize>,
        data_directory: Option<String>,
    ) -> (r: Config)
        ensures
            r@ == (ConfigModel {
                ip: opt_view(ip),
                port,
                postbox_directory: opt_view(postbox_directory),
                max_request_size,
                templates_directory: opt_view(templates_directory),
                reverse_proxy_prefix: opt_view(reverse_proxy_prefix),
                cookiejar_directory: opt_view(cookiejar_directory),
                cache_directory: opt_view(cache_directory),
                newsgen_directory: opt_view(newsgen_directory),
                newsgen_lru_cache_size,
                data_directory: opt_view(data_directory),
            }),
    {
        Config {
            ip,
            port,
            postbox_directory,
            max_request_size,
            templates_directory,
            reverse_proxy_prefix,
            cookiejar_directory,
            cache_directory,
            newsgen_directory,
            newsgen_lru_cache_size,
            data_directory,
        }
    }

    /// The address to listen on; `127.0.0.1` by default.
    pub fn ip(&self) -> (r: &str)
        ensures
            r@ == or_default(self@.ip, "127.0.0.1"@),
    {
        str_or(&self.ip, "127.0.0.1")
    }

    /// The port to listen on; 3000 by default.
    pub fn port(&self) -> (r: u16)
        ensures
            r == or_default(self@.port, 3000u16),
    {
        match self.port {
            Some(val) => val,
            None => 3000,
        }
    }

    /// Where submitted messages are written; `./postbox` by default.
    pub fn postbox_directory(&self) -> (r: &str)
        ensures
            r@ == or_default(self@.postbox_directory, "./postbox"@),
    {
        str_or(&self.postbox_directory, "./postbox")
    }

    /// How many bytes of a request are read at most; 4096 by default.
    pub fn max_request_size(&self) -> (r: u64)
        ensures
            r == or_default(self@.max_request_size, 4096u64),
    {
        match self.max_request_size {
            Some(val) => val,
            None => 4096,
        }
    }

    /// Where the page templates are; `./templates` by default.
    pub fn templates_directory(&self) -> (r: &str)
        ensures
            r@ == or_default(self@.templates_directory, "./templates"@),
    {
        str_or(&self.templates_directory, "./templates")
    }

    /// The path prefix under which a reverse proxy serves the server; `/d`
    /// by default.
    pub fn reverse_proxy_prefix(&self) -> (r: &str)
        ensures
            r@ == or_default(self@.reverse_proxy_prefix, "/d"@),
    {
        str_or(&self.reverse_proxy_prefix, "/d")
    }

    /// Where cookies are kept; `./cookiejar` by default.
    pub fn cookiejar_directory(&self) -> (r: &str)
        ensures
            r@ == or_default(self@.cookiejar_directory, "./cookiejar"@),
    {
        str_or(&self.cookiejar_directory, "./cookiejar")
    }

    /// Where rendered pages are cached; `./cache` by default.
    pub fn cache_directory(&self) -> (r: &str)
        ensures
            r@ == or_default(self@.cache_directory, "./cache"@),
    {
        str_or(&self.cache_directory, "./cache")
    }

    /// Where the news articles are; `./newsgen` by default.
    pub fn newsgen_directory(&self) -> (r: &str)
        ensures
            r@ == or_default(self@.newsgen_directory, "./newsgen"@),
    {
        str_or(&self.newsgen_directory, "./newsgen")
    }

    /// How many rendered pages the cache holds; 8 by default.
    pub fn newsgen_lru_cache_size(&self) -> (r: usize)
        ensures
            r == or_default(self@.newsgen_lru_cache_size, 8usize),
    {
        match self.newsgen_lru_cache_size {
            Some(val) => val,
            None => 8,
        }
    }

    /// Where stored objects and the uuid keystore are kept; `./data` by
    /// default.
    pub fn data_directory(&self) -> (r: &str)
        ensures
            r@ == or_default(self@.data_directory, "./data"@),
    {
        str_or(&self.data_directory, "./data")
    }

    /// `ip:port`, the address to bind.
    pub fn get_host(&self) -> (r: String)
        ensures
            r@ == or_default(self@.ip, "127.0.0.1"@) + ":"@ + decimal(
                or_default(self@.port, 3000u16) as nat,
            ),
    {
        let with_colon = concat(self.ip(), ":");
        concat(with_colon.as_str(), decimal_string(self.port() as u64).as_str())
    }
}

} // verus!

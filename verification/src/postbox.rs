//! The postbox: messages submitted through the contact form.
//!
//! A submission is checked here; writing the message and the validation
//! cookie to disk is left to the caller, which then reports back through
//! [`Postbox::after_write`] or [`Postbox::reject`].
use vstd::prelude::*;
use crate::clock::{max_timestamp, now_timestamp, subsecond, timestamp_in_range};
use crate::cookie::{cookie_text_ok, lemma_cookie_roundtrip, parse, parse_spec, Cookie};
use crate::form::{form_pairs, pairs_view, parse_form_pairs};
use crate::http::{plain, Request, Response, ResponseModel};
use crate::options::{or_default, Config};
use crate::text::{concat, str_eq};
use crate::uuid_text::{is_uuid_v4_text, new_uuid_v4};

verus! {

/// A message left through the contact form.
pub struct PostboxMessage {
    pub name: String,
    pub comment: String,
    pub email: String,
}

impl PostboxMessage {
    pub open spec fn model(&self) -> (Seq<char>, Seq<char>, Seq<char>) {
        (self.name@, self.comment@, self.email@)
    }
}

/// Why a submission is not accepted.
pub enum PostboxError {
    /// Required fields are empty: the messages to show, and the message as
    /// submitted.
    MissingField(Vec<String>, PostboxMessage),
    /// The postbox directory is not a directory.
    BadPath,
    /// The body is not a form with exactly the fields `name`, `comment` and
    /// `email`.
    BadParse,
}

/// An accepted message and the directory it goes to.
pub struct Postbox {
    path: String,
    message: PostboxMessage,
}

/// The values given for `key` among the pairs, in order.
pub open spec fn values_for(pairs: Seq<(Seq<char>, Seq<char>)>, key: Seq<char>) -> Seq<Seq<char>>
    decreases pairs.len(),
{
    if pairs.len() == 0 {
        Seq::empty()
    } else if pairs.last().0 == key {
        values_for(pairs.drop_last(), key).push(pairs.last().1)
    } else {
        values_for(pairs.drop_last(), key)
    }
}

proof fn lemma_values_for_grows(pairs: Seq<(Seq<char>, Seq<char>)>, key: Seq<char>, i: int)
    requires
        0 <= i <= pairs.len(),
    ensures
        values_for(pairs.take(i), key).len() <= values_for(pairs, key).len(),
    decreases pairs.len() - i,
{
    if i < pairs.len() {
        lemma_values_for_grows(pairs, key, i + 1);
        assert(pairs.take(i + 1).drop_last() =~= pairs.take(i));
    } else {
        assert(pairs.take(i) =~= pairs);
    }
}

/// The message that form pairs describe, as a struct with the fields
/// `name`, `comment` and `email` is deserialized from them: each field must
/// be given exactly once; other pairs are ignored.
pub open spec fn message_from_pairs(pairs: Seq<(Seq<char>, Seq<char>)>) -> Option<
    (Seq<char>, Seq<char>, Seq<char>),
> {
    let n = values_for(pairs, "name"@);
    let c = values_for(pairs, "comment"@);
    let e = values_for(pairs, "email"@);
    if n.len() == 1 && c.len() == 1 && e.len() == 1 {
        Some((n[0], c[0], e[0]))
    } else {
        None
    }
}

/// Whether `o` is what a field given by `vs` holds so far: nothing when it
/// was not given, its value when it was given once.
pub open spec fn field_state(o: Option<String>, vs: Seq<Seq<char>>) -> bool {
    match o {
        None => vs.len() == 0,
        Some(s) => vs.len() == 1 && s@ == vs[0],
    }
}

/// The message that form pairs describe.
pub fn message_from_form_pairs(pairs: &Vec<(String, String)>) -> (r: Option<PostboxMessage>)
    ensures
        match message_from_pairs(pairs_view(pairs@)) {
            Some(m) => r matches Some(msg) && msg.model() == m,
            None => r is None,
        },
{
    let ghost ps = pairs_view(pairs@);
    let mut name: Option<String> = None;
    let mut comment: Option<String> = None;
    let mut email: Option<String> = None;
    let mut i: usize = 0;
    assert(ps.take(0) =~= Seq::<(Seq<char>, Seq<char>)>::empty());
    while i < pairs.len()
        invariant
            i <= pairs@.len() == ps.len(),
            ps == pairs_view(pairs@),
            field_state(name, values_for(ps.take(i as int), "name"@)),
            field_state(comment, values_for(ps.take(i as int), "comment"@)),
            field_state(email, values_for(ps.take(i as int), "email"@)),
        decreases pairs.len() - i,
    {
        let key = &pairs[i].0;
        let value = &pairs[i].1;
        proof {
            reveal_strlit("name");
            reveal_strlit("comment");
            reveal_strlit("email");
            assert("name"@.len() == 4 && "comment"@.len() == 7 && "email"@.len() == 5);
        }
        let ghost t = ps.take(i + 1);
        assert(t.drop_last() =~= ps.take(i as int));
        assert(t.last() == (key@, value@));
        if str_eq(key.as_str(), "name") {
            if name.is_some() {
                proof {
                    lemma_values_for_grows(ps, "name"@, i + 1);
                }
                return None;
            }
            name = Some(value.clone());
        } else if str_eq(key.as_str(), "comment") {
            if comment.is_some() {
                proof {
                    lemma_values_for_grows(ps, "comment"@, i + 1);
                }
                return None;
            }
            comment = Some(value.clone());
        } else if str_eq(key.as_str(), "email") {
            if email.is_some() {
                proof {
                    lemma_values_for_grows(ps, "email"@, i + 1);
                }
                return None;
            }
            email = Some(value.clone());
        }
        i = i + 1;
    }
    assert(ps.take(i as int) =~= ps);
    match (name, comment, email) {
        (Some(name), Some(comment), Some(email)) => Some(PostboxMessage { name, comment, email }),
        _ => None,
    }
}

/// The message with all fields empty.
pub fn get_default_postbox_message() -> (r: PostboxMessage)
    ensures
        r.model() == (Seq::<char>::empty(), Seq::<char>::empty(), Seq::<char>::empty()),
{
    PostboxMessage { name: String::new(), comment: String::new(), email: String::new() }
}

/// The validation messages for a message: one for an empty name, one for an
/// empty comment, in that order.
pub open spec fn validation_errors_for(name: Seq<char>, comment: Seq<char>) -> Seq<Seq<char>> {
    (if name.len() == 0 {
        seq!["Please enter a name."@]
    } else {
        Seq::empty()
    }) + (if comment.len() == 0 {
        seq!["Please enter a comment."@]
    } else {
        Seq::empty()
    })
}

/// The views of a list of strings.
pub open spec fn strings_view(v: Seq<String>) -> Seq<Seq<char>> {
    v.map_values(|s: String| s@)
}

/// The text written to the postbox file for a message.
pub open spec fn message_text(name: Seq<char>, comment: Seq<char>) -> Seq<char> {
    "Name: "@ + name + "\n\n"@ + comment
}

impl Postbox {
    pub closed spec fn spec_path(&self) -> Seq<char> {
        self.path@
    }

    pub closed spec fn spec_message(&self) -> (Seq<char>, Seq<char>, Seq<char>) {
        self.message.model()
    }

    /// Checks a submission: the postbox directory (`path_is_dir` tells
    /// whether it is a directory), then the form body, then the required
    /// fields.
    pub fn new(path: &str, path_is_dir: bool, buffer: &str) -> (r: Result<Postbox, PostboxError>)
        ensures
            !path_is_dir ==> r matches Err(PostboxError::BadPath),
            path_is_dir ==> match parse_form_pairs_result(buffer@) {
                None => r matches Err(PostboxError::BadParse),
                Some(m) => submission_outcome(r, path@, m),
            },
    {
        if !path_is_dir {
            return Err(PostboxError::BadPath);
        }
        Postbox::from_form_pairs(path, parse_form_pairs(buffer))
    }

    /// Checks the decoded pairs of a submission's form body (`None` when
    /// decoding failed), then the required fields.
    pub fn from_form_pairs(path: &str, pairs: Option<Vec<(String, String)>>) -> (r: Result<
        Postbox,
        PostboxError,
    >)
        ensures
            match pairs {
                None => r matches Err(PostboxError::BadParse),
                Some(v) => match message_from_pairs(pairs_view(v@)) {
                    None => r matches Err(PostboxError::BadParse),
                    Some(m) => submission_outcome(r, path@, m),
                },
            },
    {
        let message = match pairs {
            Some(pairs) => match message_from_form_pairs(&pairs) {
                Some(m) => m,
                None => return Err(PostboxError::BadParse),
            },
            None => return Err(PostboxError::BadParse),
        };
        let mut errors: Vec<String> = Vec::new();
        if message.name.as_str().is_empty() {
            errors.push("Please enter a name.".to_owned());
        }
        if message.comment.as_str().is_empty() {
            errors.push("Please enter a comment.".to_owned());
        }
        assert(strings_view(errors@) =~= validation_errors_for(message.name@, message.comment@));
        if errors.len() > 0 {
            Err(PostboxError::MissingField(errors, message))
        } else {
            Ok(Postbox { path: path.to_owned(), message })
        }
    }

    /// What writing the message to the postbox means: the name of a new
    /// file (a random uuid and `.txt`) and its text; nothing when the spam
    /// honeypot field `email` is filled in.
    pub fn write_plan(&self) -> (r: Option<(String, String)>)
        ensures
            self.spec_message().2.len() == 0 <==> r is Some,
            r matches Some((file, text)) ==> text@ == message_text(
                self.spec_message().0,
                self.spec_message().1,
            ) && file@.len() == 40 && is_uuid_v4_text(file@.take(36)) && file@.skip(36)
                == ".txt"@,
    {
        if self.message.email.as_str().is_empty() {
            let uuid = new_uuid_v4();
            let file = concat(uuid.as_str(), ".txt");
            proof {
                reveal_strlit(".txt");
                assert(file@.take(36) =~= uuid@);
                assert(file@.skip(36) =~= ".txt"@);
            }
            let t1 = concat("Name: ", self.message.name.as_str());
            let t2 = concat(t1.as_str(), "\n\n");
            let text = concat(t2.as_str(), self.message.comment.as_str());
            Some((file, text))
        } else {
            None
        }
    }
}

/// What a submission whose form describes the message `m` gives: the
/// accepted message when no field is missing, else the validation messages
/// with the message as submitted.
pub open spec fn submission_outcome(
    r: Result<Postbox, PostboxError>,
    path: Seq<char>,
    m: (Seq<char>, Seq<char>, Seq<char>),
) -> bool {
    let errors = validation_errors_for(m.0, m.1);
    if errors.len() == 0 {
        match r {
            Ok(p) => p.spec_path() == path && p.spec_message() == m,
            Err(_) => false,
        }
    } else {
        match r {
            Err(PostboxError::MissingField(es, msg)) => strings_view(es@) == errors && msg.model()
                == m,
            _ => false,
        }
    }
}

/// What the form body of a submission describes, if it parses.
pub open spec fn parse_form_pairs_result(body: Seq<char>) -> Option<
    (Seq<char>, Seq<char>, Seq<char>),
> {
    message_from_pairs(form_pairs(body))
}

/// How long the validation cookie lives: one day, in seconds.
pub open spec fn cookie_lifetime() -> int {
    86400
}

/// The cookie that keeps a rejected submission, so that the contact form
/// can show what was wrong and what was entered.
pub struct ValidationCookie {
    id: String,
    creation: i64,
    creation_nanos: u32,
    pub validation_errors: Vec<String>,
    pub contents: PostboxMessage,
}

impl ValidationCookie {
    /// The cookie's id, a uuid.
    pub closed spec fn spec_id(&self) -> Seq<char> {
        self.id@
    }

    /// When the cookie was made, as a timestamp.
    pub closed spec fn spec_creation(&self) -> i64 {
        self.creation
    }

    /// The nanoseconds past the timestamp when the cookie was made.
    pub closed spec fn spec_creation_nanos(&self) -> u32 {
        self.creation_nanos
    }

    /// The validation messages the cookie holds.
    pub closed spec fn spec_errors(&self) -> Seq<Seq<char>> {
        strings_view(self.validation_errors@)
    }

    /// The message the cookie holds.
    pub closed spec fn spec_contents(&self) -> (Seq<char>, Seq<char>, Seq<char>) {
        self.contents.model()
    }

    /// A cookie with the given parts: it was made `creation_nanos`
    /// nanoseconds after the timestamp `creation`.
    pub fn from_parts(
        id: String,
        creation: i64,
        creation_nanos: u32,
        validation_errors: Vec<String>,
        contents: PostboxMessage,
    ) -> (r: ValidationCookie)
        ensures
            r.spec_id() == id@,
            r.spec_creation() == creation,
            r.spec_creation_nanos() == creation_nanos,
            r.spec_errors() == strings_view(validation_errors@),
            r.spec_contents() == contents.model(),
    {
        ValidationCookie { id, creation, creation_nanos, validation_errors, contents }
    }

    /// When the cookie was made, as a timestamp.
    pub fn creation(&self) -> (r: i64)
        ensures
            r == self.spec_creation(),
    {
        self.creation
    }

    /// The nanoseconds past the timestamp when the cookie was made.
    pub fn creation_nanos(&self) -> (r: u32)
        ensures
            r == self.spec_creation_nanos(),
    {
        self.creation_nanos
    }

    /// The session file that holds the validation cookie a request names in
    /// its `Cookie` header (under `postbox_validation`), if it names one:
    /// `<cookiejar>/session/<id>.bck`.
    pub fn session_file(request: &Request, config: &Config) -> (r: Option<String>)
        ensures
            match request@.headers.contains_key("cookie"@) {
                false => r is None,
                true => {
                    let cookies = crate::cookie::parse_spec(request@.headers["cookie"@]);
                    match cookies.contains_key("postbox_validation"@) {
                        false => r is None,
                        true => r matches Some(path) && path@ == or_default(
                            config@.cookiejar_directory,
                            "./cookiejar"@,
                        ) + "/session/"@ + cookies["postbox_validation"@] + ".bck"@,
                    }
                },
            },
    {
        match request.raw_headers().get("cookie") {
            Some(cookie_string) => {
                let cookies = parse(cookie_string.as_str());
                match cookies.get("postbox_validation") {
                    Some(id) => {
                        let a = concat(config.cookiejar_directory(), "/session/");
                        let b = concat(a.as_str(), id.as_str());
                        Some(concat(b.as_str(), ".bck"))
                    },
                    None => None,
                }
            },
            None => None,
        }
    }

    /// The file the cookie is saved to: `<cookiejar>/<id>.bck`.
    pub fn save_path(&self, config: &Config) -> (r: String)
        ensures
            r@ == or_default(config@.cookiejar_directory, "./cookiejar"@) + "/"@ + self.spec_id()
                + ".bck"@,
    {
        let a = concat(config.cookiejar_directory(), "/");
        let b = concat(a.as_str(), self.id.as_str());
        concat(b.as_str(), ".bck")
    }
}

/// A fresh validation cookie: a random id, made now, with no validation
/// messages and an empty message.
pub fn get_default_validation_cookie() -> (r: ValidationCookie)
    ensures
        is_uuid_v4_text(r.spec_id()),
        timestamp_in_range(r.spec_creation() as int),
        subsecond(r.spec_creation_nanos()),
        r.spec_errors().len() == 0,
        r.spec_contents() == (Seq::<char>::empty(), Seq::<char>::empty(), Seq::<char>::empty()),
{
    let (creation, creation_nanos) = now_timestamp();
    ValidationCookie {
        id: new_uuid_v4(),
        creation,
        creation_nanos,
        validation_errors: Vec::new(),
        contents: get_default_postbox_message(),
    }
}

impl Cookie for ValidationCookie {
    closed spec fn cookie_name(&self) -> Seq<char> {
        "postbox_validation"@
    }

    closed spec fn cookie_value(&self) -> Seq<char> {
        self.id@
    }

    closed spec fn expiry(&self) -> Option<(int, u32)> {
        Some((self.creation + cookie_lifetime(), self.creation_nanos))
    }

    closed spec fn expiry_defined(&self) -> bool {
        &&& min_timestamp_le(self.creation as int)
        &&& self.creation + cookie_lifetime() <= max_timestamp()
        &&& subsecond(self.creation_nanos)
    }

    fn name(&self) -> (r: &str) {
        "postbox_validation"
    }

    fn value(&self) -> (r: &str) {
        self.id.as_str()
    }

    fn max_age(&self) -> (r: Option<i64>)
        ensures
            r == Some(cookie_lifetime() as i64),
    {
        Some(86400)
    }

    fn get_expiry(&self) -> (r: Option<(i64, u32)>) {
        Some((self.creation + 86400, self.creation_nanos))
    }
}

/// Whether a timestamp is not before the earliest one.
pub open spec fn min_timestamp_le(t: int) -> bool {
    crate::clock::min_timestamp() <= t
}

impl ValidationCookie {
    /// The cookie's name, value and expiry as a response sets them.
    pub proof fn lemma_cookie_parts(&self)
        ensures
            self.cookie_name() == "postbox_validation"@,
            self.cookie_value() == self.spec_id(),
            self.expiry() == Some(
                (self.spec_creation() + cookie_lifetime(), self.spec_creation_nanos()),
            ),
            self.expiry_defined() <==> (timestamp_in_range(self.spec_creation() as int)
                && self.spec_creation() + cookie_lifetime() <= max_timestamp() && subsecond(
                self.spec_creation_nanos(),
            )),
    {
    }
}

/// The validation cookie that a rejection sets, `postbox_validation` with
/// the cookie's uuid as value, is read back from the `Cookie` header that a
/// browser returns it in.
pub proof fn lemma_validation_cookie_read_back(id: Seq<char>)
    requires
        is_uuid_v4_text(id),
    ensures
        parse_spec("postbox_validation"@ + "="@ + id) == map!["postbox_validation"@ => id],
{
    reveal_strlit("postbox_validation");
    let name = "postbox_validation"@;
    assert(cookie_text_ok(name));
    assert forall|j: int| 0 <= j < id.len() implies id[j] != ';' && id[j] != '=' by {
        if !(j == 8 || j == 13 || j == 18 || j == 23) {
            assert(crate::uuid_text::is_lower_hex(id[j]));
        }
    }
    assert(crate::uuid_text::is_lower_hex(id[0]));
    assert(crate::uuid_text::is_lower_hex(id[35]));
    assert(id.last() == id[35]);
    assert(cookie_text_ok(id));
    lemma_cookie_roundtrip(name, id);
}

/// What to do with a submission to the postbox.
pub enum PostboxPlan {
    /// Answer at once.
    Reply(Response),
    /// Write the accepted message, then call [`Postbox::after_write`].
    Write(Postbox),
    /// Required fields are missing: call [`Postbox::reject`] with these
    /// validation messages and the message as submitted.
    Invalid(Vec<String>, PostboxMessage),
}

/// A 303 redirect to `location`, setting these cookies.
pub open spec fn see_other(location: Seq<char>, cookies: Seq<(Seq<char>, Seq<char>, Option<(i64, u32)>)>) -> ResponseModel {
    ResponseModel {
        code: 303,
        content_type: "text/plain"@,
        redirect: location,
        body: Seq::empty(),
        cookies,
    }
}

/// Whether a plan answers with the response `m`.
pub open spec fn replies(r: PostboxPlan, m: ResponseModel) -> bool {
    match r {
        PostboxPlan::Reply(resp) => resp@ == m,
        _ => false,
    }
}

/// What the plan is for a submission whose form describes the message `m`.
pub open spec fn plan_outcome(r: PostboxPlan, path: Seq<char>, m: (Seq<char>, Seq<char>, Seq<char>)) -> bool {
    let errors = validation_errors_for(m.0, m.1);
    if errors.len() == 0 {
        match r {
            PostboxPlan::Write(p) => p.spec_path() == path && p.spec_message() == m,
            _ => false,
        }
    } else {
        match r {
            PostboxPlan::Invalid(es, msg) => strings_view(es@) == errors && msg.model() == m,
            _ => false,
        }
    }
}

impl Postbox {
    /// Decides what to do with a submission to the postbox: it must be a
    /// form (by its `Content-Type`) and pass [`Postbox::new`] for the
    /// configured postbox directory (`postbox_is_dir` tells whether that is
    /// a directory).
    pub fn plan(request: &Request, config: &Config, postbox_is_dir: bool) -> (r: PostboxPlan)
        ensures
            !request@.headers.contains_key("content-type"@) ==> replies(
                r,
                plain(400, "No content-type provided"@),
            ),
            request@.headers.contains_key("content-type"@) && request@.headers["content-type"@]
                != "application/x-www-form-urlencoded"@ ==> replies(
                r,
                plain(400, "Incorrect content-type"@),
            ),
            request@.headers.contains_key("content-type"@) && request@.headers["content-type"@]
                == "application/x-www-form-urlencoded"@ ==> {
                &&& !postbox_is_dir ==> replies(
                    r,
                    plain(500, "Internal server error: bad postbox path."@),
                )
                &&& postbox_is_dir ==> match parse_form_pairs_result(request@.content) {
                    None => replies(
                        r,
                        plain(500, "Internal server error: Incorrect postbox format."@),
                    ),
                    Some(m) => plan_outcome(
                        r,
                        or_default(config@.postbox_directory, "./postbox"@),
                        m,
                    ),
                }
            },
    {
        match request.raw_headers().get("content-type") {
            Some(value) => {
                if str_eq(value.as_str(), "application/x-www-form-urlencoded") {
                    match Postbox::new(config.postbox_directory(), postbox_is_dir, request.content().as_str()) {
                        Ok(postbox) => PostboxPlan::Write(postbox),
                        Err(PostboxError::MissingField(errors, message)) => PostboxPlan::Invalid(errors, message),
                        Err(PostboxError::BadPath) => PostboxPlan::Reply(Response::create(500, "text/plain", "Internal server error: bad postbox path.")),
                        Err(PostboxError::BadParse) => PostboxPlan::Reply(Response::create(500, "text/plain", "Internal server error: Incorrect postbox format.")),
                    }
                } else {
                    PostboxPlan::Reply(Response::create(400, "text/plain", "Incorrect content-type"))
                }
            },
            None => PostboxPlan::Reply(Response::create(400, "text/plain", "No content-type provided")),
        }
    }

    /// The answer once an accepted message has been handled (`written` tells
    /// whether writing it succeeded). On success the cookie's validation
    /// messages and contents are cleared if it had messages; the second
    /// result tells whether the cookie changed and has to be saved.
    pub fn after_write(cookie: &mut ValidationCookie, written: bool) -> (r: (Response, bool))
        ensures
            !written ==> r.0@ == plain(500, "Internal server error: Could not write postbox file."@)
                && !r.1 && *final(cookie) == *old(cookie),
            written ==> r.0@ == see_other("/"@, Seq::empty()) && r.1 == (old(cookie).spec_errors().len() > 0),
            written && old(cookie).spec_errors().len() > 0 ==> final(cookie).spec_errors().len() == 0
                && final(cookie).spec_contents() == (Seq::<char>::empty(), Seq::<char>::empty(), Seq::<char>::empty())
                && final(cookie).spec_id() == old(cookie).spec_id()
                && final(cookie).spec_creation() == old(cookie).spec_creation()
                && final(cookie).spec_creation_nanos() == old(cookie).spec_creation_nanos(),
            written && old(cookie).spec_errors().len() == 0 ==> *final(cookie) == *old(cookie),
    {
        if !written {
            return (Response::create(500, "text/plain", "Internal server error: Could not write postbox file."), false);
        }
        let mut changed = false;
        if cookie.validation_errors.len() > 0 {
            cookie.validation_errors.clear();
            cookie.contents = get_default_postbox_message();
            changed = true;
        }
        (Response::create_and_set_redirect(303, "/"), changed)
    }

    /// The answer to a submission with missing fields: the cookie keeps the
    /// validation messages and the message (the caller saves it), and the
    /// response sends the browser back to the contact form with the cookie
    /// set.
    pub fn reject(
        cookie: &mut ValidationCookie,
        errors: Vec<String>,
        message: PostboxMessage,
        config: &Config,
    ) -> (r: Response)
        requires
            old(cookie).expiry_defined(),
        ensures
            final(cookie).spec_errors() == strings_view(errors@),
            final(cookie).spec_contents() == message.model(),
            final(cookie).spec_id() == old(cookie).spec_id(),
            final(cookie).spec_creation() == old(cookie).spec_creation(),
            final(cookie).spec_creation_nanos() == old(cookie).spec_creation_nanos(),
            r@ == see_other(
                or_default(config@.reverse_proxy_prefix, "/d"@) + "/contact"@,
                seq![
                    (
                        "postbox_validation"@,
                        old(cookie).spec_id(),
                        Some(
                            (
                                (old(cookie).spec_creation() + cookie_lifetime()) as i64,
                                old(cookie).spec_creation_nanos(),
                            ),
                        ),
                    ),
                ],
            ),
    {
        cookie.validation_errors = errors;
        cookie.contents = message;
        let location = concat(config.reverse_proxy_prefix(), "/contact");
        let mut response = Response::create_and_set_redirect(303, location.as_str());
        response.set_cookie(&*cookie);
        assert(seq![].push(
            (
                "postbox_validation"@,
                old(cookie).spec_id(),
                Some(
                            (
                                (old(cookie).spec_creation() + cookie_lifetime()) as i64,
                                old(cookie).spec_creation_nanos(),
                            ),
                        ),
            ),
        ) =~= seq![
            (
                "postbox_validation"@,
                old(cookie).spec_id(),
                Some(
                            (
                                (old(cookie).spec_creation() + cookie_lifetime()) as i64,
                                old(cookie).spec_creation_nanos(),
                            ),
                        ),
            ),
        ]);
        response
    }
}

} // verus!

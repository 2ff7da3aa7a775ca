//! A user account.
use vstd::prelude::*;
use crate::datalayer::FdoObject;
use crate::uuid_text::{is_uuid_v4_text, new_uuid_v4};

verus! {

/// A user: a uuid and a username.
pub struct User {
    uuid: String,
    username: String,
}

impl User {
    pub closed spec fn uuid_view(&self) -> Seq<char> {
        self.uuid@
    }

    pub closed spec fn username_view(&self) -> Seq<char> {
        self.username@
    }

    /// A new user with a fresh random uuid.
    pub fn new(username: &str) -> (r: User)
        ensures
            is_uuid_v4_text(r.uuid_view()),
            r.username_view() == username@,
    {
        User { uuid: new_uuid_v4(), username: username.to_owned() }
    }

    /// A user with the given uuid and username, as they were stored.
    pub fn from_parts(uuid: String, username: String) -> (r: User)
        ensures
            r.uuid_view() == uuid@,
            r.username_view() == username@,
    {
        User { uuid, username }
    }

    pub fn uuid(&self) -> (r: &str)
        ensures
            r@ == self.uuid_view(),
    {
        self.uuid.as_str()
    }

    pub fn username(&self) -> (r: &str)
        ensures
            r@ == self.username_view(),
    {
        self.username.as_str()
    }
}

impl FdoObject for User {
    open spec fn key_spec() -> Seq<char> {
        "user"@
    }

    open spec fn uuid_spec(&self) -> Seq<char> {
        self.uuid_view()
    }

    fn key() -> (r: &'static str) {
        proof {
            reveal_strlit("user");
        }
        "user"
    }

    fn uuid(&self) -> (r: &str) {
        self.uuid.as_str()
    }
}

} // verus!

//! A comment submitted through a form that carries a honeypot field.
use vstd::prelude::*;
use crate::text::str_eq;

verus! {

/// A submitted comment with the honeypot field that spam bots fill in.
pub struct Comment {
    honeypot: String,
    comment: String,
}

/// The value that the honeypot field must hold for the comment to be valid.
pub open spec fn honeypot_value() -> Seq<char> {
    "support@ne0ndrag0n.com"@
}

impl Comment {
    pub closed spec fn spec_honeypot(&self) -> Seq<char> {
        self.honeypot@
    }

    pub closed spec fn spec_comment(&self) -> Seq<char> {
        self.comment@
    }

    pub fn new(honeypot: String, comment: String) -> (r: Comment)
        ensures
            r.spec_honeypot() == honeypot@,
            r.spec_comment() == comment@,
    {
        Comment { honeypot, comment }
    }

    /// Whether the honeypot field holds the expected address.
    pub fn validate(&self) -> (r: bool)
        ensures
            r == (self.spec_honeypot() == honeypot_value()),
    {
        str_eq(self.honeypot.as_str(), "support@ne0ndrag0n.com")
    }

    pub fn honeypot(&self) -> (r: &String)
        ensures
            r@ == self.spec_honeypot(),
    {
        &self.honeypot
    }

    pub fn comment(&self) -> (r: &String)
        ensures
            r@ == self.spec_comment(),
    {
        &self.comment
    }
}

} // verus!

//! Access lists that pair users with URLs.
use vstd::prelude::*;
use crate::user::User;

verus! {

/// An access list over users held in memory.
pub struct UrlAcl<'a> {
    list: Vec<(&'a User, String)>,
}

/// An access list as it is stored: user uuids paired with URLs.
pub struct StorableUrlAcl {
    list: Vec<(String, String)>,
}

} // verus!

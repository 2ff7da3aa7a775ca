//! Decoding `application/x-www-form-urlencoded` bodies with
//! `serde_urlencoded`.
use vstd::prelude::*;

verus! {

/// The name/value pairs, percent-decoded and in order, that
/// `serde_urlencoded` reads from a form body.
pub uninterp spec fn form_pairs(body: Seq<char>) -> Seq<(Seq<char>, Seq<char>)>;

/// The views of a list of string pairs.
pub open spec fn pairs_view(v: Seq<(String, String)>) -> Seq<(Seq<char>, Seq<char>)> {
    v.map_values(|p: (String, String)| (p.0@, p.1@))
}

/// `serde_urlencoded::from_str::<Vec<(String, String)>>`: the pairs of a
/// form body. The decoding is left to `serde_urlencoded` and named
/// `form_pairs`. Into pairs of strings it does not fail: `form_urlencoded`
/// decodes percent escapes lossily, and each pair of `serde`'s map
/// deserializer gives the two strings a 2-tuple asks for.
#[verifier::external_body]
pub(crate) fn parse_form_pairs(body: &str) -> (r: Option<Vec<(String, String)>>)
    ensures
        r is Some,
        r matches Some(v) ==> pairs_view(v@) == form_pairs(body@),
{
    match serde_urlencoded::from_str::<Vec<(String, String)>>(body) {
        Ok(v) => Some(v),
        Err(_) => None,
    }
}

} // verus!

//! The decision behind the templates' `ifval` block helper.
use vstd::prelude::*;
use crate::text::str_eq;

verus! {

/// A helper parameter's string, or the empty string when it is missing or
/// is no string.
pub open spec fn param_or_empty(p: Option<&str>) -> Seq<char> {
    match p {
        Some(s) => s@,
        None => Seq::empty(),
    }
}

/// Whether `{{#ifval needle value}}` renders its block (rather than its
/// inverse): when both parameters are the same string, a missing parameter
/// counting as the empty string.
pub fn ifval_takes_block(needle: Option<&str>, value: Option<&str>) -> (r: bool)
    ensures
        r == (param_or_empty(needle) == param_or_empty(value)),
{
    let n = match needle {
        Some(s) => s,
        None => "",
    };
    let v = match value {
        Some(s) => s,
        None => "",
    };
    proof {
        reveal_strlit("");
        assert(""@ =~= Seq::<char>::empty());
    }
    str_eq(n, v)
}

} // verus!

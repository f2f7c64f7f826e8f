use vstd::prelude::*;

use crate::strings::str_eq;

verus! {

/// The alias table: a short name mapped to its `backend:name` form.
pub open spec fn registry_alias(s: Seq<char>) -> Option<Seq<char>> {
    if s == "ubi"@ {
        Some("cargo:ubi"@)
    } else {
        None
    }
}

/// Looks up the canonical `backend:name` string that `s` is an alias of.
pub fn get(s: &str) -> (r: Option<&'static str>)
    ensures
        match r {
            Some(a) => registry_alias(s@) == Some(a@),
            None => registry_alias(s@) is None,
        },
{
    if str_eq(s, "ubi") {
        Some("cargo:ubi")
    } else {
        None
    }
}

} // verus!

//! The HTTP method names the request line grammar recognises.

use crate::text::{eq_uncased, fold_case};
use vstd::prelude::*;

verus! {

/// Representation of HTTP methods.  `Other` is the placeholder a fresh
/// request starts with; the parser never produces it from a method token.
#[derive(Clone, Copy, PartialEq, Eq, Structural, Hash, Debug)]
pub enum Method {
    Get,
    Post,
    Delete,
    Patch,
    Put,
    Other,
}

/// The canonical (upper-case) name of each method.
pub open spec fn spec_method_name(m: Method) -> Seq<char> {
    match m {
        Method::Get => "GET"@,
        Method::Post => "POST"@,
        Method::Delete => "DELETE"@,
        Method::Patch => "PATCH"@,
        Method::Put => "PUT"@,
        Method::Other => "Other"@,
    }
}

/// A token names a method when it equals one of the five canonical names
/// up to ASCII case; `Other` is never recognised from a token.
pub open spec fn spec_method_from_str(s: Seq<char>) -> Result<Method, ()> {
    if fold_case(s) == fold_case(spec_method_name(Method::Get)) {
        Ok(Method::Get)
    } else if fold_case(s) == fold_case(spec_method_name(Method::Post)) {
        Ok(Method::Post)
    } else if fold_case(s) == fold_case(spec_method_name(Method::Delete)) {
        Ok(Method::Delete)
    } else if fold_case(s) == fold_case(spec_method_name(Method::Patch)) {
        Ok(Method::Patch)
    } else if fold_case(s) == fold_case(spec_method_name(Method::Put)) {
        Ok(Method::Put)
    } else {
        Err(())
    }
}

impl Method {
    /// The canonical name of the method.
    pub fn as_str(self) -> (r: &'static str)
        ensures
            r@ == spec_method_name(self),
    {
        match self {
            Method::Get => "GET",
            Method::Post => "POST",
            Method::Delete => "DELETE",
            Method::Patch => "PATCH",
            Method::Put => "PUT",
            Method::Other => "Other",
        }
    }

    /// Recognise a method token, ignoring ASCII case.
    pub fn from_str(s: &str) -> (r: Result<Method, ()>)
        ensures
            r == spec_method_from_str(s@),
    {
        if eq_uncased(s, "GET") {
            Ok(Method::Get)
        } else if eq_uncased(s, "POST") {
            Ok(Method::Post)
        } else if eq_uncased(s, "DELETE") {
            Ok(Method::Delete)
        } else if eq_uncased(s, "PATCH") {
            Ok(Method::Patch)
        } else if eq_uncased(s, "PUT") {
            Ok(Method::Put)
        } else {
            Err(())
        }
    }
}

} // verus!

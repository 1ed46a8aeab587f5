//! The status codes the response serializer knows, with their numeric and
//! textual forms.

use crate::text::{eq_uncased, fold_case};
use vstd::prelude::*;

verus! {

/// The fixed set of status codes, each with a numeric and a textual form.
#[derive(Clone, Copy, PartialEq, Eq, Structural, Hash, Debug)]
pub enum StatusCode {
    Continue,
    Okay,
    Created,
    Accepted,
    Found,
    BadRequest,
    NotFound,
}

/// The reason phrase of each status code.
pub open spec fn spec_status_name(c: StatusCode) -> Seq<char> {
    match c {
        StatusCode::Continue => "Continue"@,
        StatusCode::Okay => "Ok"@,
        StatusCode::Created => "Created"@,
        StatusCode::Accepted => "Accepted"@,
        StatusCode::Found => "Found"@,
        StatusCode::BadRequest => "Bad Request"@,
        StatusCode::NotFound => "Not Found"@,
    }
}

/// The numeric form of each status code.
pub open spec fn spec_status_num(c: StatusCode) -> usize {
    match c {
        StatusCode::Continue => 100,
        StatusCode::Okay => 200,
        StatusCode::Created => 201,
        StatusCode::Accepted => 202,
        StatusCode::Found => 302,
        StatusCode::BadRequest => 400,
        StatusCode::NotFound => 404,
    }
}

/// The decimal spelling of the numeric form, used on the status line.
pub open spec fn spec_status_num_str(c: StatusCode) -> Seq<char> {
    match c {
        StatusCode::Continue => "100"@,
        StatusCode::Okay => "200"@,
        StatusCode::Created => "201"@,
        StatusCode::Accepted => "202"@,
        StatusCode::Found => "302"@,
        StatusCode::BadRequest => "400"@,
        StatusCode::NotFound => "404"@,
    }
}

/// The status code owning a number, if any: the inverse of
/// `spec_status_num`.
pub open spec fn spec_status_from_num(code: usize) -> Result<StatusCode, ()> {
    if code == 100 {
        Ok(StatusCode::Continue)
    } else if code == 200 {
        Ok(StatusCode::Okay)
    } else if code == 201 {
        Ok(StatusCode::Created)
    } else if code == 202 {
        Ok(StatusCode::Accepted)
    } else if code == 302 {
        Ok(StatusCode::Found)
    } else if code == 400 {
        Ok(StatusCode::BadRequest)
    } else if code == 404 {
        Ok(StatusCode::NotFound)
    } else {
        Err(())
    }
}

/// A string names a status code when it equals one of the reason phrases
/// up to ASCII case.
pub open spec fn spec_status_from_str(s: Seq<char>) -> Result<StatusCode, ()> {
    if fold_case(s) == fold_case(spec_status_name(StatusCode::Continue)) {
        Ok(StatusCode::Continue)
    } else if fold_case(s) == fold_case(spec_status_name(StatusCode::Okay)) {
        Ok(StatusCode::Okay)
    } else if fold_case(s) == fold_case(spec_status_name(StatusCode::Created)) {
        Ok(StatusCode::Created)
    } else if fold_case(s) == fold_case(spec_status_name(StatusCode::Accepted)) {
        Ok(StatusCode::Accepted)
    } else if fold_case(s) == fold_case(spec_status_name(StatusCode::Found)) {
        Ok(StatusCode::Found)
    } else if fold_case(s) == fold_case(spec_status_name(StatusCode::BadRequest)) {
        Ok(StatusCode::BadRequest)
    } else if fold_case(s) == fold_case(spec_status_name(StatusCode::NotFound)) {
        Ok(StatusCode::NotFound)
    } else {
        Err(())
    }
}

impl StatusCode {
    /// The reason phrase of the status code.
    pub fn as_str(&self) -> (r: &'static str)
        ensures
            r@ == spec_status_name(*self),
    {
        match self {
            StatusCode::Continue => "Continue",
            StatusCode::Okay => "Ok",
            StatusCode::Created => "Created",
            StatusCode::Accepted => "Accepted",
            StatusCode::Found => "Found",
            StatusCode::BadRequest => "Bad Request",
            StatusCode::NotFound => "Not Found",
        }
    }

    /// The numeric form of the status code.
    pub fn as_num(&self) -> (r: usize)
        ensures
            r == spec_status_num(*self),
    {
        match self {
            StatusCode::Continue => 100,
            StatusCode::Okay => 200,
            StatusCode::Created => 201,
            StatusCode::Accepted => 202,
            StatusCode::Found => 302,
            StatusCode::BadRequest => 400,
            StatusCode::NotFound => 404,
        }
    }

    /// The decimal spelling of the numeric form.
    pub fn as_num_str(&self) -> (r: &'static str)
        ensures
            r@ == spec_status_num_str(*self),
    {
        match self {
            StatusCode::Continue => "100",
            StatusCode::Okay => "200",
            StatusCode::Created => "201",
            StatusCode::Accepted => "202",
            StatusCode::Found => "302",
            StatusCode::BadRequest => "400",
            StatusCode::NotFound => "404",
        }
    }

    /// The status code with the given numeric form, if any.
    pub fn from_num(code: usize) -> (r: Result<Self, ()>)
        ensures
            r == spec_status_from_num(code),
    {
        if code == 100 {
            Ok(StatusCode::Continue)
        } else if code == 200 {
            Ok(StatusCode::Okay)
        } else if code == 201 {
            Ok(StatusCode::Created)
        } else if code == 202 {
            Ok(StatusCode::Accepted)
        } else if code == 302 {
            Ok(StatusCode::Found)
        } else if code == 400 {
            Ok(StatusCode::BadRequest)
        } else if code == 404 {
            Ok(StatusCode::NotFound)
        } else {
            Err(())
        }
    }

    /// The status code with the given reason phrase, ignoring ASCII case.
    pub fn from_str(s: &str) -> (r: Result<Self, ()>)
        ensures
            r == spec_status_from_str(s@),
    {
        if eq_uncased(s, "Continue") {
            Ok(StatusCode::Continue)
        } else if eq_uncased(s, "Ok") {
            Ok(StatusCode::Okay)
        } else if eq_uncased(s, "Created") {
            Ok(StatusCode::Created)
        } else if eq_uncased(s, "Accepted") {
            Ok(StatusCode::Accepted)
        } else if eq_uncased(s, "Found") {
            Ok(StatusCode::Found)
        } else if eq_uncased(s, "Bad Request") {
            Ok(StatusCode::BadRequest)
        } else if eq_uncased(s, "Not Found") {
            Ok(StatusCode::NotFound)
        } else {
            Err(())
        }
    }
}

} // verus!

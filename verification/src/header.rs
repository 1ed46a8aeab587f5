//! The reserved header names and the fixed content-type set.

use crate::text::{eq_uncased, fold_case};
use vstd::prelude::*;

verus! {

/// The header names the parser gives special treatment, plus two common
/// names kept for callers that build requests by hand.
#[derive(Clone, Copy, PartialEq, Eq, Structural, Hash, Debug)]
pub enum HttpHeader {
    UserAgent,
    Accept,
    ContentLength,
    ContentType,
}

pub open spec fn spec_http_header_name(h: HttpHeader) -> Seq<char> {
    match h {
        HttpHeader::UserAgent => "User-Agent"@,
        HttpHeader::Accept => "Accept"@,
        HttpHeader::ContentLength => "Content-Length"@,
        HttpHeader::ContentType => "Content-Type"@,
    }
}

impl HttpHeader {
    /// The canonical spelling of the header name.
    pub fn as_str(self) -> (r: &'static str)
        ensures
            r@ == spec_http_header_name(self),
    {
        match self {
            HttpHeader::UserAgent => "User-Agent",
            HttpHeader::Accept => "Accept",
            HttpHeader::ContentLength => "Content-Length",
            HttpHeader::ContentType => "Content-Type",
        }
    }
}

/// The fixed set of MIME kinds the parser recognises, partitioned into
/// textual and binary body handling.
#[derive(Clone, Copy, PartialEq, Eq, Structural, Hash, Debug)]
pub enum ContentType {
    TextPlain,
    TextHtml,
    ApplicationJson,
    ImageJpeg,
    ImagePng,
}

pub open spec fn spec_content_type_name(t: ContentType) -> Seq<char> {
    match t {
        ContentType::TextPlain => "text/plain"@,
        ContentType::TextHtml => "text/html"@,
        ContentType::ApplicationJson => "application/json"@,
        ContentType::ImageJpeg => "image/jpeg"@,
        ContentType::ImagePng => "image/png"@,
    }
}

/// The kinds whose body is decoded as text; the remaining kinds keep the
/// raw bytes.
pub open spec fn spec_is_textual(t: ContentType) -> bool {
    match t {
        ContentType::TextPlain | ContentType::TextHtml | ContentType::ApplicationJson => true,
        ContentType::ImageJpeg | ContentType::ImagePng => false,
    }
}

/// A value names a content type when it equals one of the five MIME names
/// up to ASCII case.
pub open spec fn spec_content_type_from_str(s: Seq<char>) -> Result<ContentType, ()> {
    if fold_case(s) == fold_case(spec_content_type_name(ContentType::TextPlain)) {
        Ok(ContentType::TextPlain)
    } else if fold_case(s) == fold_case(spec_content_type_name(ContentType::TextHtml)) {
        Ok(ContentType::TextHtml)
    } else if fold_case(s) == fold_case(spec_content_type_name(ContentType::ApplicationJson)) {
        Ok(ContentType::ApplicationJson)
    } else if fold_case(s) == fold_case(spec_content_type_name(ContentType::ImageJpeg)) {
        Ok(ContentType::ImageJpeg)
    } else if fold_case(s) == fold_case(spec_content_type_name(ContentType::ImagePng)) {
        Ok(ContentType::ImagePng)
    } else {
        Err(())
    }
}

impl ContentType {
    /// The MIME name of the content type.
    pub fn as_str(self) -> (r: &'static str)
        ensures
            r@ == spec_content_type_name(self),
    {
        match self {
            ContentType::TextPlain => "text/plain",
            ContentType::TextHtml => "text/html",
            ContentType::ApplicationJson => "application/json",
            ContentType::ImageJpeg => "image/jpeg",
            ContentType::ImagePng => "image/png",
        }
    }

    /// Recognise a MIME name, ignoring ASCII case.
    pub fn from_str(s: &str) -> (r: Result<ContentType, ()>)
        ensures
            r == spec_content_type_from_str(s@),
    {
        if eq_uncased(s, "text/plain") {
            Ok(ContentType::TextPlain)
        } else if eq_uncased(s, "text/html") {
            Ok(ContentType::TextHtml)
        } else if eq_uncased(s, "application/json") {
            Ok(ContentType::ApplicationJson)
        } else if eq_uncased(s, "image/jpeg") {
            Ok(ContentType::ImageJpeg)
        } else if eq_uncased(s, "image/png") {
            Ok(ContentType::ImagePng)
        } else {
            Err(())
        }
    }

    /// Whether the body of this content type is handled as text.
    pub fn is_textual(self) -> (r: bool)
        ensures
            r == spec_is_textual(self),
    {
        match self {
            ContentType::TextPlain | ContentType::TextHtml | ContentType::ApplicationJson => true,
            ContentType::ImageJpeg | ContentType::ImagePng => false,
        }
    }
}

} // verus!

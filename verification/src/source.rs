//! Content sources that cards are generated from.

use vstd::prelude::*;
use crate::external::{new_uuid_string, now_unix_seconds};
use crate::strutil::str_eq;
use vstd::string::StringExecFns;

verus! {

/// Where a source came from.
#[derive(Debug, Clone, Copy, PartialEq, Eq, Structural)]
pub enum SourceType {
    Manual,
    Text,
    Pdf,
    Url,
}

/// The wire name of each source type.
pub open spec fn spec_source_type_name(t: SourceType) -> Seq<char> {
    match t {
        SourceType::Manual => "manual"@,
        SourceType::Text => "text"@,
        SourceType::Pdf => "pdf"@,
        SourceType::Url => "url"@,
    }
}

/// How a wire name maps to a source type; anything unrecognised counts as
/// manual.
pub open spec fn spec_parse_source_type(s: Seq<char>) -> SourceType {
    if s == "text"@ {
        SourceType::Text
    } else if s == "pdf"@ {
        SourceType::Pdf
    } else if s == "url"@ {
        SourceType::Url
    } else {
        SourceType::Manual
    }
}

impl SourceType {
    /// The lowercase wire name of the source type.
    pub fn as_str(&self) -> (r: &'static str)
        ensures
            r@ == spec_source_type_name(*self),
    {
        proof {
            reveal_strlit("manual");
            reveal_strlit("text");
            reveal_strlit("pdf");
            reveal_strlit("url");
        }
        match self {
            SourceType::Manual => "manual",
            SourceType::Text => "text",
            SourceType::Pdf => "pdf",
            SourceType::Url => "url",
        }
    }

    /// Parse a wire name.
    pub fn parse(s: &str) -> (r: SourceType)
        ensures
            r == spec_parse_source_type(s@),
    {
        if str_eq(s, "text") {
            SourceType::Text
        } else if str_eq(s, "pdf") {
            SourceType::Pdf
        } else if str_eq(s, "url") {
            SourceType::Url
        } else {
            SourceType::Manual
        }
    }
}

impl From<String> for SourceType {
    fn from(value: String) -> (r: SourceType) {
        SourceType::parse(value.as_str())
    }
}

impl vstd::std_specs::convert::FromSpecImpl<String> for SourceType {
    open spec fn obeys_from_spec() -> bool {
        true
    }

    open spec fn from_spec(value: String) -> SourceType {
        spec_parse_source_type(value@)
    }
}

impl From<SourceType> for String {
    fn from(value: SourceType) -> (r: String)
        ensures
            r@ == spec_source_type_name(value),
    {
        value.as_str().to_owned()
    }
}

impl vstd::std_specs::convert::FromSpecImpl<SourceType> for String {
    open spec fn obeys_from_spec() -> bool {
        false
    }

    open spec fn from_spec(value: SourceType) -> String {
        arbitrary()
    }
}

/// A persisted record of one content source.
#[derive(Debug, Clone)]
pub struct Source {
    pub id: String,
    pub source_type: String,
    pub title: Option<String>,
    pub url: Option<String>,
    pub content_hash: Option<String>,
    pub created_at: i64,
}

impl Source {
    /// Build a fresh source record, stamped with a new identifier and the
    /// current time.
    pub fn new(source_type: SourceType, title: Option<String>, url: Option<String>) -> (r: Source)
        ensures
            r.source_type@ == spec_source_type_name(source_type),
            r.title == title,
            r.url == url,
            r.content_hash is None,
            r.id@.len() == 36,
    {
        Source {
            id: new_uuid_string(),
            source_type: source_type.as_str().to_owned(),
            title,
            url,
            content_hash: None,
            created_at: now_unix_seconds(),
        }
    }
}

} // verus!

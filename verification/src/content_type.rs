//! Common content types.

use vstd::prelude::*;

verus! {

/// The type of a response's body.
#[derive(Debug, PartialEq, Eq, Hash)]
pub enum Content {
    /// HTML, `text/html`.
    HTML,
    /// Plain text, `text/plain`.
    TXT,
    /// Comma-separated values, `text/csv`.
    CSV,
    /// JSON, `application/json`.
    JSON,
    /// XML, `application/xml`.
    XML,
    /// Another type, by its name.
    Custom(String),
}

impl Content {
    /// The name of the type, as it stands in a `Content-Type` header.
    pub open spec fn mime(self) -> Seq<char> {
        match self {
            Content::HTML => "text/html"@,
            Content::TXT => "text/plain"@,
            Content::CSV => "text/csv"@,
            Content::JSON => "application/json"@,
            Content::XML => "application/xml"@,
            Content::Custom(s) => s@,
        }
    }

    /// The name of the type, as it stands in a `Content-Type` header.
    pub fn as_type(&self) -> (s: &str)
        ensures
            s@ == self.mime(),
    {
        match self {
            Content::HTML => "text/html",
            Content::TXT => "text/plain",
            Content::CSV => "text/csv",
            Content::JSON => "application/json",
            Content::XML => "application/xml",
            Content::Custom(s) => s.as_str(),
        }
    }
}

} // verus!

//! Errors for parsing, loading and validating BSOL documents.

use vstd::prelude::*;

use crate::ast::BsolSpan;
use crate::text::{cat3, decimal, decimal_text, join2, owned};

verus! {

/// Failure while parsing, loading, or validating a BSOL document.
#[derive(Debug, PartialEq, Eq)]
pub enum BsolError {
    ParseAt { line: usize, message: String, start: Option<usize>, end: Option<usize> },
    Parse(String),
    SchemaAt { line: usize, message: String, start: Option<usize>, end: Option<usize> },
    Schema(String),
    UnknownProfile(String),
    Import(String),
}

/// Model of [`BsolError`] with texts as character sequences.
pub ghost enum SError {
    ParseAt { line: usize, message: Seq<char>, start: Option<usize>, end: Option<usize> },
    Parse(Seq<char>),
    SchemaAt { line: usize, message: Seq<char>, start: Option<usize>, end: Option<usize> },
    Schema(Seq<char>),
    UnknownProfile(Seq<char>),
    Import(Seq<char>),
}

impl View for BsolError {
    type V = SError;

    open spec fn view(&self) -> SError {
        match self {
            BsolError::ParseAt { line, message, start, end } => SError::ParseAt {
                line: *line,
                message: message@,
                start: *start,
                end: *end,
            },
            BsolError::Parse(m) => SError::Parse(m@),
            BsolError::SchemaAt { line, message, start, end } => SError::SchemaAt {
                line: *line,
                message: message@,
                start: *start,
                end: *end,
            },
            BsolError::Schema(m) => SError::Schema(m@),
            BsolError::UnknownProfile(m) => SError::UnknownProfile(m@),
            BsolError::Import(m) => SError::Import(m@),
        }
    }
}

/// A parse error located at `span`.
pub open spec fn parse_err(span: BsolSpan, message: Seq<char>) -> SError {
    SError::ParseAt { line: span.line, message, start: Some(span.start), end: Some(span.end) }
}

/// A schema error located at `span`.
pub open spec fn schema_err(span: BsolSpan, message: Seq<char>) -> SError {
    SError::SchemaAt { line: span.line, message, start: Some(span.start), end: Some(span.end) }
}

/// Byte range of a located error, when it is non-empty.
pub open spec fn located_range(start: Option<usize>, end: Option<usize>) -> Option<(usize, usize)> {
    match (start, end) {
        (Some(s), Some(e)) => if e > s {
            Some((s, e))
        } else {
            None
        },
        _ => None,
    }
}

impl BsolError {
    pub fn parse_at(span: BsolSpan, message: String) -> (r: Self)
        ensures
            r@ == parse_err(span, message@),
    {
        BsolError::ParseAt {
            line: span.line,
            message,
            start: Some(span.start),
            end: Some(span.end),
        }
    }

    pub fn schema_at(span: BsolSpan, message: String) -> (r: Self)
        ensures
            r@ == schema_err(span, message@),
    {
        BsolError::SchemaAt {
            line: span.line,
            message,
            start: Some(span.start),
            end: Some(span.end),
        }
    }

    /// Byte range of a parse error, when it is non-empty.
    pub fn source_span(&self) -> (r: Option<(usize, usize)>)
        ensures
            r == (match self@ {
                SError::ParseAt { start, end, .. } => located_range(start, end),
                _ => None,
            }),
    {
        match self {
            BsolError::ParseAt { start, end, .. } => match (start, end) {
                (Some(s), Some(e)) => if *e > *s {
                    Some((*s, *e))
                } else {
                    None
                },
                _ => None,
            },
            _ => None,
        }
    }

    /// Line of a parse error.
    pub fn source_line(&self) -> (r: Option<usize>)
        ensures
            r == (match self@ {
                SError::ParseAt { line, .. } => Some(line),
                _ => None,
            }),
    {
        match self {
            BsolError::ParseAt { line, .. } => Some(*line),
            _ => None,
        }
    }

    /// Byte range of a located parse or schema error, when it is non-empty.
    pub fn manifest_source_span(&self) -> (r: Option<(usize, usize)>)
        ensures
            r == (match self@ {
                SError::ParseAt { start, end, .. } => located_range(start, end),
                SError::SchemaAt { start, end, .. } => located_range(start, end),
                _ => None,
            }),
    {
        match self {
            BsolError::ParseAt { start, end, .. } | BsolError::SchemaAt { start, end, .. } => {
                match (start, end) {
                    (Some(s), Some(e)) => if *e > *s {
                        Some((*s, *e))
                    } else {
                        None
                    },
                    _ => None,
                }
            },
            _ => None,
        }
    }

    /// Line of a located parse or schema error.
    pub fn manifest_source_line(&self) -> (r: Option<usize>)
        ensures
            r == (match self@ {
                SError::ParseAt { line, .. } => Some(line),
                SError::SchemaAt { line, .. } => Some(line),
                _ => None,
            }),
    {
        match self {
            BsolError::ParseAt { line, .. } | BsolError::SchemaAt { line, .. } => Some(*line),
            _ => None,
        }
    }
}

/// The message of an error, as its `Display` reads.
pub open spec fn error_text(e: SError) -> Seq<char> {
    match e {
        SError::ParseAt { line, message, .. } => "BSOL parse error at line "@ + decimal(line as nat)
            + ": "@ + message,
        SError::Parse(m) => "BSOL parse error: "@ + m,
        SError::SchemaAt { line, message, .. } => "BSOL schema error at line "@ + decimal(
            line as nat,
        ) + ": "@ + message,
        SError::Schema(m) => "BSOL schema error: "@ + m,
        SError::UnknownProfile(m) => "unknown schema profile `"@ + m + "`"@,
        SError::Import(m) => "schema import error: "@ + m,
    }
}

impl BsolError {
    /// The error's message.
    pub fn to_string(&self) -> (r: String)
        ensures
            r@ == error_text(self@),
    {
        match self {
            BsolError::ParseAt { line, message, .. } => {
                let a = cat3("BSOL parse error at line ", decimal_text(*line).as_str(), ": ");
                join2(a, message.as_str())
            },
            BsolError::Parse(m) => join2(owned("BSOL parse error: "), m.as_str()),
            BsolError::SchemaAt { line, message, .. } => {
                let a = cat3("BSOL schema error at line ", decimal_text(*line).as_str(), ": ");
                join2(a, message.as_str())
            },
            BsolError::Schema(m) => join2(owned("BSOL schema error: "), m.as_str()),
            BsolError::UnknownProfile(m) => cat3("unknown schema profile `", m.as_str(), "`"),
            BsolError::Import(m) => join2(owned("schema import error: "), m.as_str()),
        }
    }
}

} // verus!

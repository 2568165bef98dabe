//! Editor diagnostics: which profile a document is checked against, and where its first error
//! is shown.

use vstd::prelude::*;
use vstd::string::StringSliceAdditionalSpecFns;

use crate::error::{error_text, located_range, BsolError, SError};
use crate::grammar::{document_of, document_unspannable_from};
use crate::parser::parse_bsol_document;
use crate::session::{analyze_spec, analyze_with_profile};
use crate::text::chars_of;

verus! {

/// Index of the last `.` before `n`, or -1.
pub open spec fn last_dot(s: Seq<char>, n: int) -> int
    decreases n,
{
    if n <= 0 {
        -1
    } else if s[n - 1] == '.' {
        n - 1
    } else {
        last_dot(s, n - 1)
    }
}

/// The text after the last `.` (all of it when there is none).
pub open spec fn extension_of(path: Seq<char>) -> Seq<char> {
    path.subrange(last_dot(path, path.len() as int) + 1, path.len() as int)
}

/// `.bws` files are workspaces, `.bsol` files are schema profiles, anything else a project.
pub open spec fn profile_for_spec(path: Seq<char>) -> Seq<char> {
    if extension_of(path) == "bws"@ {
        "workspace.v1"@
    } else if extension_of(path) == "bsol"@ {
        "schema.v1"@
    } else {
        "project.v1"@
    }
}

/// The embedded profile a document at `path` is checked against.
pub fn profile_for_path(path: &str) -> (r: &'static str)
    ensures
        r@ == profile_for_spec(path@),
{
    let cs = chars_of(path);
    let n = cs.len();
    let mut k = n;
    while k > 0 && cs[k - 1] != '.'
        invariant
            k <= n,
            n == path@.len(),
            cs@ == path@,
            last_dot(path@, n as int) == last_dot(path@, k as int),
        decreases k,
    {
        k = k - 1;
    }
    let ext = crate::text::sub_text(path, k, n);
    proof {
        assert(last_dot(path@, n as int) + 1 == k);
    }
    if crate::text::string_is(&ext, "bws") {
        "workspace.v1"
    } else if crate::text::string_is(&ext, "bsol") {
        "schema.v1"
    } else {
        "project.v1"
    }
}

/// Where an error is shown: a zero-based line and a width of at least one character.
#[derive(Debug, PartialEq, Eq)]
pub struct DiagnosticSpot {
    pub line: u32,
    pub width: u32,
    pub message: String,
}

/// The zero-based line of a one-based line (line 1 when there is none), truncated to 32 bits.
pub open spec fn spot_line(line: Option<usize>) -> u32 {
    let l: int = match line {
        Some(x) => x as int,
        None => 1,
    };
    (if l >= 1 {
        l - 1
    } else {
        0
    }) as u32
}

/// The width of a byte range, both ends truncated to 32 bits (the difference wraps), at least 1.
pub open spec fn spot_width(span: Option<(usize, usize)>) -> u32 {
    match span {
        Some((s, e)) => {
            let w: int = if (e as u32) >= (s as u32) {
                (e as u32) - (s as u32)
            } else {
                (e as u32) + 0x1_0000_0000 - (s as u32)
            };
            if w < 1 {
                1
            } else {
                w as u32
            }
        },
        None => 1,
    }
}

pub open spec fn spot_view(d: DiagnosticSpot) -> (u32, u32, Seq<char>) {
    (d.line, d.width, d.message@)
}

fn spot(line: Option<usize>, span: Option<(usize, usize)>, message: String) -> (r: DiagnosticSpot)
    ensures
        spot_view(r) == (spot_line(line), spot_width(span), message@),
{
    let l: usize = match line {
        Some(x) => x,
        None => 1,
    };
    let l0: usize = if l >= 1 {
        l - 1
    } else {
        0
    };
    let width: u32 = match span {
        Some((s, e)) => {
            let s32 = s as u32;
            let e32 = e as u32;
            let w: u32 = if e32 >= s32 {
                e32 - s32
            } else {
                ((e32 as u64) + 0x1_0000_0000u64 - (s32 as u64)) as u32
            };
            if w < 1 {
                1
            } else {
                w
            }
        },
        None => 1,
    };
    DiagnosticSpot { line: l0 as u32, width, message }
}

/// A parse error, shown on its line with the width of its byte range.
pub open spec fn parse_spot(e: SError) -> (u32, u32, Seq<char>) {
    let line = match e {
        SError::ParseAt { line, .. } => Some(line),
        _ => None,
    };
    let span = match e {
        SError::ParseAt { start, end, .. } => located_range(start, end),
        _ => None,
    };
    (spot_line(line), spot_width(span), error_text(e))
}

/// A parse or schema error, shown on its line with the width of its byte range.
pub open spec fn error_spot(e: SError) -> (u32, u32, Seq<char>) {
    let line = match e {
        SError::ParseAt { line, .. } => Some(line),
        SError::SchemaAt { line, .. } => Some(line),
        _ => None,
    };
    let span = match e {
        SError::ParseAt { start, end, .. } => located_range(start, end),
        SError::SchemaAt { start, end, .. } => located_range(start, end),
        _ => None,
    };
    (spot_line(line), spot_width(span), error_text(e))
}

pub fn diagnostic_from_parse_error(err: &BsolError) -> (r: DiagnosticSpot)
    ensures
        spot_view(r) == parse_spot(err@),
        r.width >= 1,
{
    spot(err.source_line(), err.source_span(), err.to_string())
}

pub fn diagnostic_from_error(err: &BsolError) -> (r: DiagnosticSpot)
    ensures
        spot_view(r) == error_spot(err@),
        r.width >= 1,
{
    spot(err.manifest_source_line(), err.manifest_source_span(), err.to_string())
}

/// A document that does not parse shows its parse error; one that does shows its first
/// validation error against `profile`, if any.
pub open spec fn diagnostics_spec(source: Seq<u8>, profile: Seq<char>) -> Seq<(u32, u32, Seq<char>)> {
    match document_of(source) {
        Err(e) => seq![parse_spot(e)],
        Ok(_) => match analyze_spec(source, profile) {
            Err(e) => seq![error_spot(e)],
            Ok(_) => Seq::empty(),
        },
    }
}

/// The diagnostics of `source` checked against the embedded profile `profile`.
pub fn collect_diagnostics(source: &str, profile: &str) -> (r: Vec<DiagnosticSpot>)
    requires
        !document_unspannable_from(source.spec_bytes(), 0),
    ensures
        r@.map_values(|d: DiagnosticSpot| spot_view(d)) == diagnostics_spec(source.spec_bytes(), profile@),
{
    let mut out: Vec<DiagnosticSpot> = Vec::new();
    match parse_bsol_document(source) {
        Err(err) => {
            out.push(diagnostic_from_parse_error(&err));
        },
        Ok(_) => match analyze_with_profile(source, profile) {
            Err(err) => {
                out.push(diagnostic_from_error(&err));
            },
            Ok(_) => {},
        },
    }
    proof {
        assert(out@.map_values(|d: DiagnosticSpot| spot_view(d)) =~= diagnostics_spec(
            source.spec_bytes(),
            profile@,
        ));
    }
    out
}

} // verus!

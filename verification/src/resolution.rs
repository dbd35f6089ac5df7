//! Values of the resolved device context that the library itself owns.
use vstd::prelude::*;

use crate::text::{chars_of, push_all, push_lit, string_of};

verus! {

/// The two roots owned solely by APP Manager.
#[derive(Debug, Clone, PartialEq, Eq)]
pub struct AppOwnedPaths {
    pub state: String,
    pub trash: String,
}

/// Why a resolved device context could not be used.
#[derive(Debug)]
pub enum ResolutionConversionError {
    MissingPath(String),
    Frontend(String),
    Context(String),
}

pub open spec fn conversion_error_text(e: ResolutionConversionError) -> Seq<char> {
    match e {
        ResolutionConversionError::MissingPath(p) => "resolution is missing required path `"@ + p@ + "`"@,
        ResolutionConversionError::Frontend(m) => "invalid frontend contract: "@ + m@,
        ResolutionConversionError::Context(m) => "resolved context is unsafe: "@ + m@,
    }
}

impl ResolutionConversionError {
    /// The display text of the error.
    pub fn message(&self) -> (r: String)
        ensures
            r@ == conversion_error_text(*self),
    {
        let mut out: Vec<char> = Vec::new();
        match self {
            ResolutionConversionError::MissingPath(p) => {
                push_lit(&mut out, "resolution is missing required path `");
                push_all(&mut out, chars_of(p.as_str()).as_slice());
                push_lit(&mut out, "`");
            },
            ResolutionConversionError::Frontend(m) => {
                push_lit(&mut out, "invalid frontend contract: ");
                push_all(&mut out, chars_of(m.as_str()).as_slice());
            },
            ResolutionConversionError::Context(m) => {
                push_lit(&mut out, "resolved context is unsafe: ");
                push_all(&mut out, chars_of(m.as_str()).as_slice());
            },
        }
        string_of(out.as_slice())
    }
}

} // verus!

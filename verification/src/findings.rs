//! What an analysis of a shell script collects.
use vstd::prelude::*;

use crate::text::{eq_lit, spec_is_ascii_alphanumeric, contains_seq, Text};
use crate::textset::TextSet;

verus! {

/// Largest number of recorded items of one category.
pub const MAX_ITEMS: usize = 2048;

/// Largest number of diagnostics or notes kept.
pub const MAX_MESSAGES: usize = 128;

pub open spec fn runtime_char(c: char) -> bool {
    spec_is_ascii_alphanumeric(c) || c == '_' || c == '.' || c == '+' || c == '-'
}

/// A name that may designate a runtime image: non-empty, not hidden, no `..`,
/// and only ASCII letters, digits and `_ . + -`.
pub open spec fn valid_runtime_name(t: Seq<char>) -> bool {
    &&& t.len() > 0
    &&& t[0] != '.'
    &&& !contains_seq(t, seq!['.', '.'])
    &&& forall|i: int| 0 <= i < t.len() ==> runtime_char(#[trigger] t[i])
}

pub fn is_runtime_char(c: char) -> (r: bool)
    ensures
        r == runtime_char(c),
{
    crate::text::is_ascii_alphanumeric(c) || c == '_' || c == '.' || c == '+' || c == '-'
}

/// Decides `valid_runtime_name`.
pub fn check_runtime_name(t: &[char]) -> (r: bool)
    ensures
        r == valid_runtime_name(t@),
{
    if t.len() == 0 || t[0] == '.' {
        return false;
    }
    let dots = vec!['.', '.'];
    if crate::text::contains_text(t, dots.as_slice()) {
        assert(dots@ =~= seq!['.', '.']);
        return false;
    }
    assert(dots@ =~= seq!['.', '.']);
    let mut i: usize = 0;
    while i < t.len()
        invariant
            i <= t.len(),
            forall|j: int| 0 <= j < i ==> runtime_char(#[trigger] t@[j]),
        decreases t.len() - i,
    {
        if !is_runtime_char(t[i]) {
            return false;
        }
        i += 1;
    }
    true
}

/// Everything recorded while analysing one script.
pub struct Findings {
    pub paths: TextSet,
    pub declared_paths: TextSet,
    pub working_directories: TextSet,
    pub library_paths: TextSet,
    pub preload_libraries: TextSet,
    pub input_configs: TextSet,
    pub output_paths: TextSet,
    pub sources: TextSet,
    pub runtime_names: Vec<Text>,
    pub diagnostics: TextSet,
    pub notes: TextSet,
}

impl Findings {
    /// Every set is well formed; working directories, library directories and
    /// input configurations are path references too, and so is every preload
    /// library named by a path; at most `MAX_MESSAGES` diagnostics and notes
    /// are kept; runtime names are safe and recorded once.
    pub open spec fn wf(&self) -> bool {
        &&& self.paths.wf()
        &&& self.declared_paths.wf()
        &&& self.working_directories.wf()
        &&& self.library_paths.wf()
        &&& self.preload_libraries.wf()
        &&& self.input_configs.wf()
        &&& self.output_paths.wf()
        &&& self.sources.wf()
        &&& self.diagnostics.wf()
        &&& self.notes.wf()
        &&& forall|x: Seq<char>| #[trigger] self.working_directories.has(x) ==> self.paths.has(x)
        &&& forall|x: Seq<char>| #[trigger] self.library_paths.has(x) ==> self.paths.has(x)
        &&& forall|x: Seq<char>| #[trigger] self.input_configs.has(x) ==> self.paths.has(x)
        &&& forall|x: Seq<char>| #[trigger] self.preload_libraries.has(x) ==> !x.contains('/') || self.paths.has(x)
        &&& self.diagnostics.items.len() <= MAX_MESSAGES
        &&& self.notes.items.len() <= MAX_MESSAGES
        &&& forall|i: int|
            0 <= i < self.runtime_names.len() ==> valid_runtime_name(
                #[trigger] self.runtime_names[i]@,
            )
        &&& forall|i: int, j: int|
            0 <= i < j < self.runtime_names.len() ==> #[trigger] self.runtime_names[i]@
                != #[trigger] self.runtime_names[j]@
    }

    pub fn new() -> (r: Findings)
        ensures
            r.wf(),
            r.diagnostics.items.len() == 0,
            r.paths.items.len() == 0,
            r.declared_paths.items.len() == 0,
            r.working_directories.items.len() == 0,
            r.library_paths.items.len() == 0,
            r.preload_libraries.items.len() == 0,
            r.input_configs.items.len() == 0,
            r.output_paths.items.len() == 0,
            r.sources.items.len() == 0,
            r.runtime_names.len() == 0,
            r.notes.items.len() == 0,
    {
        Findings {
            paths: TextSet::new(),
            declared_paths: TextSet::new(),
            working_directories: TextSet::new(),
            library_paths: TextSet::new(),
            preload_libraries: TextSet::new(),
            input_configs: TextSet::new(),
            output_paths: TextSet::new(),
            sources: TextSet::new(),
            runtime_names: Vec::new(),
            diagnostics: TextSet::new(),
            notes: TextSet::new(),
        }
    }
}

} // verus!

//! The public boundary of shell path analysis. Scripts are never executed.
use vstd::prelude::*;

use crate::findings::{check_runtime_name, valid_runtime_name, Findings, MAX_MESSAGES};
use crate::paths::{parent, strip_prefix};
use crate::shell_sources::{SnapshotEnvironment, SourceEnvironment};
use crate::text::{chars_of, ends_with_lit, slice, string_of, Text};
use crate::textset::TextSet;

verus! {

/// File references and blockers found in one launcher script.
pub struct PathAnalysis {
    pub paths: Vec<String>,
    /// Protective declaration hints, never sufficient to authorize deletion.
    pub declared_paths: Vec<String>,
    pub working_directories: Vec<String>,
    pub library_paths: Vec<String>,
    pub preload_libraries: Vec<String>,
    pub input_configs: Vec<String>,
    pub output_paths: Vec<String>,
    pub sources: Vec<String>,
    pub runtime_names: Vec<String>,
    /// Conservative blockers, including unsupported shell state or control flow.
    pub diagnostics: Vec<String>,
    /// Non-path limitations, such as log output, are reported separately.
    pub notes: Vec<String>,
}

/// `x` occurs among the strings of `v`.
pub open spec fn listed(v: Seq<String>, x: Seq<char>) -> bool {
    exists|j: int| 0 <= j < v.len() && #[trigger] v[j]@ == x
}

/// Every member of `sub` is a member of `sup`.
pub open spec fn included(sub: Seq<String>, sup: Seq<String>) -> bool {
    forall|i: int| 0 <= i < sub.len() ==> listed(sup, #[trigger] sub[i]@)
}

impl PathAnalysis {
    /// Working directories, library directories and input configurations are
    /// always path references as well, and so is every preload library named
    /// by a path; at most `MAX_MESSAGES` diagnostics and notes are reported;
    /// runtime names are safe names, each reported once.
    pub open spec fn wf(&self) -> bool {
        &&& included(self.working_directories@, self.paths@)
        &&& included(self.library_paths@, self.paths@)
        &&& included(self.input_configs@, self.paths@)
        &&& forall|i: int|
            0 <= i < self.preload_libraries.len() ==> !(#[trigger] self.preload_libraries[i])@.contains('/') || listed(
                self.paths@,
                self.preload_libraries[i]@,
            )
        &&& self.diagnostics.len() <= MAX_MESSAGES
        &&& self.notes.len() <= MAX_MESSAGES
        &&& forall|i: int| 0 <= i < self.runtime_names.len() ==> valid_runtime_name(#[trigger] self.runtime_names[i]@)
        &&& forall|i: int, j: int|
            0 <= i < j < self.runtime_names.len() ==> #[trigger] self.runtime_names[i]@ != #[trigger] self.runtime_names[j]@
    }

    /// True when the analysis met something it could not resolve.
    pub fn uncertain(&self) -> (r: bool)
        ensures
            r == (self.diagnostics.len() > 0),
    {
        self.diagnostics.len() > 0
    }

    /// Downloadable runtime image names: references that resolve to a direct
    /// child `NAME.squashfs` of the libs directory. The repair boundary must
    /// still match each name and architecture against metadata. Where the
    /// environment resolves the libs directory and each reference is decided
    /// by `runtime_names_at`.
    pub fn runtime_dependencies<E: SourceEnvironment>(&self, libs: Option<&str>, environment: &E) -> (r: Vec<String>)
        ensures
            libs is None ==> r.len() == 0,
            forall|i: int| 0 <= i < r.len() ==> valid_runtime_name(#[trigger] r[i]@),
            forall|i: int, j: int| 0 <= i < j < r.len() ==> r[i]@ != r[j]@,
    {
        let root: Option<String> = match libs {
            Some(p) => match environment.runtime_location(p) {
                Some(r) => {
                    let t = chars_of(r.as_str());
                    if parent(t.as_slice()).is_some() {
                        Some(r)
                    } else {
                        None
                    }
                },
                None => None,
            },
            None => None,
        };
        let root = match root {
            Some(r) => r,
            None => return Vec::new(),
        };
        let mut locations: Vec<Option<String>> = Vec::new();
        let mut i: usize = 0;
        while i < self.paths.len()
            decreases self.paths.len() - i,
        {
            locations.push(environment.runtime_location(self.paths[i].as_str()));
            i += 1;
        }
        let mut i: usize = 0;
        while i < self.declared_paths.len()
            decreases self.declared_paths.len() - i,
        {
            locations.push(environment.runtime_location(self.declared_paths[i].as_str()));
            i += 1;
        }
        let mut i: usize = 0;
        while i < self.sources.len()
            decreases self.sources.len() - i,
        {
            locations.push(environment.runtime_location(self.sources[i].as_str()));
            i += 1;
        }
        runtime_names_at(root.as_str(), &locations)
    }
}

/// The runtime image that `location` names under `root`: `NAME` when the
/// location is the direct child `NAME.squashfs` of `root` and `NAME` is a
/// valid runtime name.
pub open spec fn runtime_image_name(location: Seq<char>, root: Seq<char>) -> Option<Seq<char>> {
    match crate::paths::stripped(location, root) {
        Some(rest) => if rest.len() == 1 && crate::text::is_suffix(".squashfs"@, rest[0]) && valid_runtime_name(
            rest[0].subrange(0, rest[0].len() - ".squashfs"@.len()),
        ) {
            Some(rest[0].subrange(0, rest[0].len() - ".squashfs"@.len()))
        } else {
            None
        },
        None => None,
    }
}

/// Some resolved location among `locations` names the runtime image `x`
/// under `root`.
pub open spec fn names_image(locations: Seq<Option<String>>, root: Seq<char>, x: Seq<char>) -> bool {
    exists|k: int| 0 <= k < locations.len() && (#[trigger] locations[k] matches Some(l) && runtime_image_name(l@, root) == Some(x))
}

/// The runtime image names among resolved reference locations, each once and
/// in increasing order: exactly the names `runtime_image_name` gives for the
/// locations under `root`.
pub fn runtime_names_at(root: &str, locations: &Vec<Option<String>>) -> (r: Vec<String>)
    ensures
        forall|x: Seq<char>| listed(r@, x) <==> names_image(locations@, root@, x),
        forall|i: int| 0 <= i < r.len() ==> valid_runtime_name(#[trigger] r[i]@),
        forall|i: int, j: int| 0 <= i < j < r.len() ==> r[i]@ != r[j]@,
{
    let root_text = chars_of(root);
    let mut names = TextSet::new();
    let mut c: usize = 0;
    while c < locations.len()
        invariant
            c <= locations.len(),
            root_text@ == root@,
            names.wf(),
            forall|x: Seq<char>| #[trigger] names.has(x) <==> names_image(locations@.subrange(0, c as int), root@, x),
            forall|x: Seq<char>| #[trigger] names.has(x) ==> valid_runtime_name(x),
        decreases locations.len() - c,
    {
        let ghost before = names;
        let ghost prev = locations@.subrange(0, c as int);
        let ghost next = locations@.subrange(0, c + 1);
        proof {
            assert forall|x: Seq<char>| names_image(next, root@, x) <==> (names_image(prev, root@, x) || (
            locations@[c as int] matches Some(l) && runtime_image_name(l@, root@) == Some(x))) by {
                if names_image(next, root@, x) {
                    let k = choose|k: int| 0 <= k < next.len() && (#[trigger] next[k] matches Some(l) && runtime_image_name(l@, root@) == Some(x));
                    if k < c {
                        assert(prev[k] == next[k]);
                    }
                }
                if names_image(prev, root@, x) {
                    let k = choose|k: int| 0 <= k < prev.len() && (#[trigger] prev[k] matches Some(l) && runtime_image_name(l@, root@) == Some(x));
                    assert(next[k] == prev[k]);
                }
                if locations@[c as int] matches Some(l) && runtime_image_name(l@, root@) == Some(x) {
                    assert(next[c as int] == locations@[c as int]);
                }
            }
        }
        if let Some(location) = &locations[c] {
            let path = chars_of(location.as_str());
            if let Some(rest) = strip_prefix(path.as_slice(), root_text.as_slice()) {
                if rest.len() == 1 && ends_with_lit(rest[0].as_slice(), ".squashfs") {
                    proof {
                        reveal_strlit(".squashfs");
                    }
                    let n = rest[0].len();
                    let stem = slice(rest[0].as_slice(), 0, n - 9);
                    if check_runtime_name(stem.as_slice()) {
                        names.insert(stem);
                    }
                }
            }
        }
        c += 1;
    }
    assert(locations@.subrange(0, locations.len() as int) =~= locations@);
    let out = names.to_strings();
    proof {
        assert forall|x: Seq<char>| listed(out@, x) <==> names.has(x) by {
            if listed(out@, x) {
                let j = choose|j: int| 0 <= j < out.len() && #[trigger] out@[j]@ == x;
                assert(names.items[j]@ == x);
            }
            if names.has(x) {
                let j = choose|j: int| 0 <= j < names.items.len() && #[trigger] names.items[j]@ == x;
                assert(out@[j]@ == x);
            }
        }
        assert forall|x: Seq<char>| listed(out@, x) <==> names_image(locations@, root@, x) by {
            assert(names.has(x) <==> names_image(locations@.subrange(0, locations.len() as int), root@, x));
        }
        assert forall|i: int| 0 <= i < out.len() implies valid_runtime_name(#[trigger] out[i]@) by {
            assert(names.has(names.items[i]@));
        }
        assert forall|i: int, j: int| 0 <= i < j < out.len() implies out[i]@ != out[j]@ by {
            crate::textset::lemma_text_lt_irreflexive(names.items[i]@);
        }
    }
    out
}

fn strings_of(items: &Vec<Text>) -> (r: Vec<String>)
    ensures
        r.len() == items.len(),
        forall|i: int| 0 <= i < r.len() ==> (#[trigger] r[i])@ == items[i]@,
{
    let mut out: Vec<String> = Vec::new();
    let mut i: usize = 0;
    while i < items.len()
        invariant
            i <= items.len(),
            out.len() == i,
            forall|j: int| 0 <= j < i ==> (#[trigger] out[j])@ == items[j]@,
        decreases items.len() - i,
    {
        out.push(string_of(items[i].as_slice()));
        i += 1;
    }
    out
}

proof fn lemma_included(sub: TextSet, sup: TextSet, a: Seq<String>, b: Seq<String>)
    requires
        forall|x: Seq<char>| #[trigger] sub.has(x) ==> sup.has(x),
        a.len() == sub.items.len(),
        forall|i: int| 0 <= i < a.len() ==> (#[trigger] a[i])@ == sub.items[i]@,
        b.len() == sup.items.len(),
        forall|i: int| 0 <= i < b.len() ==> (#[trigger] b[i])@ == sup.items[i]@,
    ensures
        included(a, b),
{
    assert forall|i: int| 0 <= i < a.len() implies listed(b, #[trigger] a[i]@) by {
        assert(sub.items[i]@ == a[i]@);
        assert(sub.has(a[i]@));
        let j = choose|j: int| 0 <= j < sup.items.len() && #[trigger] sup.items[j]@ == a[i]@;
        assert(b[j]@ == a[i]@);
    }
}

fn publish(f: Findings) -> (r: PathAnalysis)
    requires
        f.wf(),
    ensures
        r.wf(),
        r.diagnostics.len() == f.diagnostics.items.len(),
        forall|i: int| 0 <= i < r.diagnostics.len() ==> (#[trigger] r.diagnostics[i])@ == f.diagnostics.items[i]@,
        r.paths.len() == f.paths.items.len(),
        r.declared_paths.len() == f.declared_paths.items.len(),
        r.working_directories.len() == f.working_directories.items.len(),
        r.library_paths.len() == f.library_paths.items.len(),
        r.preload_libraries.len() == f.preload_libraries.items.len(),
        r.input_configs.len() == f.input_configs.items.len(),
        r.output_paths.len() == f.output_paths.items.len(),
        r.sources.len() == f.sources.items.len(),
        r.runtime_names.len() == f.runtime_names.len(),
        r.notes.len() == f.notes.items.len(),
{
    let paths = f.paths.to_strings();
    let working_directories = f.working_directories.to_strings();
    let library_paths = f.library_paths.to_strings();
    let input_configs = f.input_configs.to_strings();
    let runtime_names = strings_of(&f.runtime_names);
    let preload_libraries = f.preload_libraries.to_strings();
    proof {
        assert forall|i: int|
            0 <= i < preload_libraries.len() implies !(#[trigger] preload_libraries[i])@.contains('/') || listed(
                paths@,
                preload_libraries[i]@,
            ) by {
            assert(f.preload_libraries.has(f.preload_libraries.items[i]@));
            if f.paths.has(preload_libraries[i]@) {
                let j = choose|j: int| 0 <= j < f.paths.items.len() && #[trigger] f.paths.items[j]@ == preload_libraries[i]@;
                assert(paths[j]@ == preload_libraries[i]@);
            }
        }
        assert forall|i: int, j: int|
            0 <= i < j < runtime_names.len() implies #[trigger] runtime_names[i]@ != #[trigger] runtime_names[j]@ by {
            assert(runtime_names[i]@ == f.runtime_names[i]@);
            assert(runtime_names[j]@ == f.runtime_names[j]@);
        }
        lemma_included(f.working_directories, f.paths, working_directories@, paths@);
        lemma_included(f.library_paths, f.paths, library_paths@, paths@);
        lemma_included(f.input_configs, f.paths, input_configs@, paths@);
    }
    PathAnalysis {
        paths,
        declared_paths: f.declared_paths.to_strings(),
        working_directories,
        library_paths,
        preload_libraries,
        input_configs,
        output_paths: f.output_paths.to_strings(),
        sources: f.sources.to_strings(),
        runtime_names,
        diagnostics: f.diagnostics.to_strings(),
        notes: f.notes.to_strings(),
    }
}

/// Analyzes a launcher against an empty device snapshot. Too many or too long
/// input variables, or a launcher longer than `MAX_BYTES` bytes, leave the
/// analysis uncertain and without any path reference.
pub fn analyze(source: &str, variables: &Vec<(String, String)>, script: &str) -> (r: PathAnalysis)
    ensures
        r.wf(),
        crate::shell_eval::input_too_large(variables@) ==> {
            &&& r.diagnostics.len() == 1
            &&& r.diagnostics[0]@ == script@ + ": "@ + "input variable limit"@
            &&& r.paths.len() == 0 && r.declared_paths.len() == 0 && r.working_directories.len() == 0
            &&& r.library_paths.len() == 0 && r.preload_libraries.len() == 0 && r.input_configs.len() == 0
            &&& r.output_paths.len() == 0 && r.sources.len() == 0 && r.runtime_names.len() == 0 && r.notes.len() == 0
        },
        !crate::shell_eval::input_too_large(variables@) && (vstd::utf8::encode_utf8(source@).len() as usize)
            > crate::shell_eval::MAX_BYTES ==> {
            &&& r.diagnostics.len() > 0
            &&& r.paths.len() == 0 && r.working_directories.len() == 0 && r.library_paths.len() == 0
            &&& r.output_paths.len() == 0 && r.sources.len() == 0 && r.runtime_names.len() == 0
        },
{
    let environment = SnapshotEnvironment::default();
    analyze_with_environment(source, variables, script, &environment)
}

/// Analyzes a launcher against the given device environment, with the same
/// limits as `analyze`.
pub fn analyze_with_environment<E: SourceEnvironment>(
    source: &str,
    variables: &Vec<(String, String)>,
    script: &str,
    environment: &E,
) -> (r: PathAnalysis)
    ensures
        r.wf(),
        crate::shell_eval::input_too_large(variables@) ==> {
            &&& r.diagnostics.len() == 1
            &&& r.diagnostics[0]@ == script@ + ": "@ + "input variable limit"@
            &&& r.paths.len() == 0 && r.declared_paths.len() == 0 && r.working_directories.len() == 0
            &&& r.library_paths.len() == 0 && r.preload_libraries.len() == 0 && r.input_configs.len() == 0
            &&& r.output_paths.len() == 0 && r.sources.len() == 0 && r.runtime_names.len() == 0 && r.notes.len() == 0
        },
        !crate::shell_eval::input_too_large(variables@) && (vstd::utf8::encode_utf8(source@).len() as usize)
            > crate::shell_eval::MAX_BYTES ==> {
            &&& r.diagnostics.len() > 0
            &&& r.paths.len() == 0 && r.working_directories.len() == 0 && r.library_paths.len() == 0
            &&& r.output_paths.len() == 0 && r.sources.len() == 0 && r.runtime_names.len() == 0
        },
{
    let f = crate::shell_eval::analyze(source, variables, script, environment);
    proof {
        if crate::shell_eval::input_too_large(variables@) {
            let m = script@ + ": "@ + "input variable limit"@;
            let k = choose|k: int| 0 <= k < f.diagnostics.items.len() && #[trigger] f.diagnostics.items[k]@ == m;
            assert(k == 0);
        }
    }
    publish(f)
}

} // verus!

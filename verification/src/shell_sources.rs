//! Read-only inputs of shell analysis: the device-dependent facts a script may
//! observe. No operation here executes code.
use vstd::prelude::*;

use crate::paths::{has_parent_dir, join, normalize, parent, strip_prefix};
use crate::text::{chars_of, push_all, push_lit, string_of, text_eq, Text};

verus! {

/// Largest source file the analyzer reads.
pub const MAX_FILE_BYTES: usize = 262144;

/// All device-dependent operations are explicit and mockable. None executes code.
pub trait SourceEnvironment {
    fn read(&self, path: &str) -> Result<String, String>;

    fn test(&self, path: &str, operator: &str) -> Option<bool>;

    fn command_output(&self, command: &str) -> Option<String> {
        None
    }

    fn command_status(&self, command: &str) -> (r: Option<bool>)
        default_ensures
            r matches Some(b) ==> b,
    {
        match self.command_output(command) {
            Some(_) => Some(true),
            None => None,
        }
    }

    fn canonicalize(&self, path: &str) -> Option<String> {
        None
    }

    /// Resolve an image location including a missing tail, without reading its contents.
    fn runtime_location(&self, path: &str) -> Option<String> {
        None
    }
}

/// An offline description of a device: files, directories, command results
/// and symbolic links, each keyed by path or command text.
pub struct SnapshotEnvironment {
    pub files: Vec<(String, String)>,
    pub directories: Vec<String>,
    pub commands: Vec<(String, String)>,
    pub statuses: Vec<(String, bool)>,
    pub links: Vec<(String, String)>,
    /// Only a complete test snapshot can conclude an omitted file is absent.
    pub complete: bool,
}

impl Default for SnapshotEnvironment {
    fn default() -> (r: Self)
        ensures
            r.files.len() == 0,
            r.directories.len() == 0,
            r.commands.len() == 0,
            r.statuses.len() == 0,
            r.links.len() == 0,
            !r.complete,
    {
        SnapshotEnvironment {
            files: Vec::new(),
            directories: Vec::new(),
            commands: Vec::new(),
            statuses: Vec::new(),
            links: Vec::new(),
            complete: false,
        }
    }
}

/// Two paths with the same normal form name the same file.
pub open spec fn names_same(a: Seq<char>, b: Seq<char>) -> bool {
    crate::paths::normal_form(a) == crate::paths::normal_form(b)
}

/// Two paths with the same normal form name the same file.
fn same_path(a: &str, b: &[char]) -> (r: bool)
    ensures
        r == names_same(a@, b@),
{
    let x = normalize(chars_of(a).as_slice());
    let y = normalize(b);
    text_eq(x.as_slice(), y.as_slice())
}

/// The first of the first `n` pairs whose key names path `key`.
pub open spec fn first_path(pairs: Seq<(String, String)>, key: Seq<char>, n: int) -> Option<int>
    decreases n,
{
    if n <= 0 {
        None
    } else {
        match first_path(pairs, key, n - 1) {
            Some(i) => Some(i),
            None => if names_same(pairs[n - 1].0@, key) {
                Some(n - 1)
            } else {
                None
            },
        }
    }
}

proof fn lemma_first_path(pairs: Seq<(String, String)>, key: Seq<char>, n: int)
    ensures
        first_path(pairs, key, n) matches Some(i) ==> 0 <= i < n,
        first_path(pairs, key, n) is None ==> forall|j: int| 0 <= j < n ==> !names_same(#[trigger] pairs[j].0@, key),
    decreases n,
{
    if n > 0 {
        lemma_first_path(pairs, key, n - 1);
    }
}

proof fn lemma_first_path_stays(pairs: Seq<(String, String)>, key: Seq<char>, n: int, m: int)
    requires
        0 <= n <= m,
        first_path(pairs, key, n) is Some,
    ensures
        first_path(pairs, key, m) == first_path(pairs, key, n),
    decreases m - n,
{
    if m > n {
        lemma_first_path_stays(pairs, key, n, m - 1);
    }
}

/// Index of the first pair whose key names path `key`.
fn find_path(pairs: &Vec<(String, String)>, key: &[char]) -> (r: Option<usize>)
    ensures
        r matches Some(i) ==> i < pairs.len(),
        (match r {
            Some(i) => Some(i as int),
            None => None,
        }) == first_path(pairs@, key@, pairs@.len() as int),
{
    let mut i: usize = 0;
    while i < pairs.len()
        invariant
            i <= pairs.len(),
            first_path(pairs@, key@, i as int) is None,
        decreases pairs.len() - i,
    {
        if same_path(pairs[i].0.as_str(), key) {
            proof {
                assert(first_path(pairs@, key@, i + 1) == Some(i as int));
                lemma_first_path_stays(pairs@, key@, i + 1, pairs@.len() as int);
            }
            return Some(i);
        }
        i += 1;
    }
    None
}

/// Some key of `pairs` names path `p`.
pub open spec fn keyed(pairs: Seq<(String, String)>, p: Seq<char>) -> bool {
    first_path(pairs, p, pairs.len() as int) is Some
}

/// The links, applied to `path` through the first linked ancestor, trying
/// at most `rounds` ancestors from `prefix` upwards.
pub open spec fn alias_from(links: Seq<(String, String)>, path: Seq<char>, prefix: Seq<char>, rounds: nat) -> Option<Seq<char>>
    decreases rounds,
{
    if rounds == 0 {
        None
    } else {
        match first_path(links, prefix, links.len() as int) {
            Some(i) => match crate::paths::stripped(path, prefix) {
                Some(rest) => Some(joined_all(links[i].1@, rest)),
                None => None,
            },
            None => match crate::paths::parent_of(prefix) {
                Some(p) => alias_from(links, path, p, (rounds - 1) as nat),
                None => None,
            },
        }
    }
}

/// `base` joined with each of `rest` in turn.
pub open spec fn joined_all(base: Seq<char>, rest: Seq<Seq<char>>) -> Seq<char>
    decreases rest.len(),
{
    if rest.len() == 0 {
        base
    } else {
        crate::paths::joined(joined_all(base, rest.drop_last()), rest.last())
    }
}

pub open spec fn has_dot_dot_component(p: Seq<char>) -> bool {
    exists|k: int| 0 <= k < crate::paths::components(p).len() && crate::paths::is_dot_dot(#[trigger] crate::paths::components(p)[k])
}

impl SnapshotEnvironment {
    /// Some listed directory, or a strict ancestor of some listed file, is
    /// `p`.
    pub open spec fn directory_listed(&self, p: Seq<char>) -> bool {
        ||| exists|i: int| 0 <= i < self.directories.len() && names_same(#[trigger] self.directories@[i]@, p)
        ||| exists|k: int|
            0 <= k < self.files.len() && !names_same(#[trigger] self.files@[k].0@, p) && crate::paths::stripped(
                self.files@[k].0@,
                p,
            ) is Some
    }

    /// Where `path` leads through the snapshot's links.
    pub open spec fn alias_of(&self, path: Seq<char>) -> Option<Seq<char>> {
        alias_from(self.links@, path, crate::paths::normal_form(path), 4096)
    }

    /// Where a Runtime image path leads, following links at most `rounds`
    /// times; for a complete snapshot, the normal form of the last path.
    pub open spec fn location_from(&self, current: Seq<char>, rounds: nat) -> Option<Seq<char>>
        decreases rounds,
    {
        if rounds == 0 {
            None
        } else if current.len() == 0 || current[0] != '/' || has_dot_dot_component(current) {
            None
        } else {
            match self.alias_of(current) {
                Some(t) => self.location_from(t, (rounds - 1) as nat),
                None => if self.complete {
                    Some(crate::paths::normal_form(current))
                } else {
                    None
                },
            }
        }
    }

    /// The answer of a file test on the snapshot.
    pub open spec fn test_answer(&self, path: Seq<char>, op: Seq<char>) -> Option<bool> {
        let file = keyed(self.files@, path);
        let dir = self.directory_listed(path);
        let link = keyed(self.links@, path);
        let is_l = op == "-L"@ || op == "-h"@;
        if op == "-f"@ && file {
            Some(true)
        } else if op == "-d"@ && dir {
            Some(true)
        } else if op == "-e"@ && (file || dir || link) {
            Some(true)
        } else if is_l && link {
            Some(true)
        } else if op == "-x"@ && self.complete && !file && !dir && !link {
            Some(false)
        } else if (op == "-f"@ || op == "-d"@ || op == "-e"@ || is_l) && self.complete {
            Some(false)
        } else {
            None
        }
    }

    /// The output recorded for the first command that is `command`.
    pub open spec fn output_of(&self, command: Seq<char>) -> Option<Seq<char>> {
        first_output(self.commands@, command)
    }

    fn has_file(&self, path: &[char]) -> (r: bool)
        ensures
            r == keyed(self.files@, path@),
    {
        find_path(&self.files, path).is_some()
    }

    fn has_link(&self, path: &[char]) -> (r: bool)
        ensures
            r == keyed(self.links@, path@),
    {
        find_path(&self.links, path).is_some()
    }

    fn has_directory(&self, path: &[char]) -> (r: bool)
        ensures
            r == self.directory_listed(path@),
    {
        let mut i: usize = 0;
        while i < self.directories.len()
            invariant
                i <= self.directories.len(),
                forall|j: int| 0 <= j < i ==> !names_same(#[trigger] self.directories@[j]@, path@),
            decreases self.directories.len() - i,
        {
            if same_path(self.directories[i].as_str(), path) {
                return true;
            }
            i += 1;
        }
        let mut k: usize = 0;
        while k < self.files.len()
            invariant
                k <= self.files.len(),
                forall|j: int| 0 <= j < self.directories.len() ==> !names_same(#[trigger] self.directories@[j]@, path@),
                forall|j: int|
                    0 <= j < k ==> !(!names_same(#[trigger] self.files@[j].0@, path@) && crate::paths::stripped(
                        self.files@[j].0@,
                        path@,
                    ) is Some),
            decreases self.files.len() - k,
        {
            let key = chars_of(self.files[k].0.as_str());
            if !same_path(self.files[k].0.as_str(), path) && strip_prefix(key.as_slice(), path).is_some() {
                return true;
            }
            k += 1;
        }
        false
    }

    /// The alias of the longest ancestor of `path` that is a link, applied to `path`.
    fn resolve_alias(&self, path: &[char]) -> (r: Option<Text>)
        ensures
            (match r {
                Some(t) => Some(t@),
                None => None,
            }) == self.alias_of(path@),
    {
        let mut prefix = normalize(path);
        let mut rounds: usize = 0;
        while rounds < 4096
            invariant
                rounds <= 4096,
                self.alias_of(path@) == alias_from(self.links@, path@, prefix@, (4096 - rounds) as nat),
            decreases 4096 - rounds,
        {
            if let Some(i) = find_path(&self.links, prefix.as_slice()) {
                let rest = match strip_prefix(path, prefix.as_slice()) {
                    Some(r) => r,
                    None => return None,
                };
                let ghost rv = crate::paths::views(rest@);
                let mut target = chars_of(self.links[i].1.as_str());
                let mut k: usize = 0;
                while k < rest.len()
                    invariant
                        k <= rest.len(),
                        rv == crate::paths::views(rest@),
                        target@ == joined_all(self.links@[i as int].1@, rv.subrange(0, k as int)),
                    decreases rest.len() - k,
                {
                    proof {
                        assert(rv.subrange(0, k + 1).drop_last() =~= rv.subrange(0, k as int));
                    }
                    target = join(target.as_slice(), rest[k].as_slice());
                    k += 1;
                }
                assert(rv.subrange(0, rest.len() as int) =~= rv);
                return Some(target);
            }
            match parent(prefix.as_slice()) {
                Some(p) => {
                    prefix = p;
                },
                None => return None,
            }
            rounds += 1;
        }
        None
    }
}

/// The output of the first of `commands` that is `command`.
pub open spec fn first_output(commands: Seq<(String, String)>, command: Seq<char>) -> Option<Seq<char>>
    decreases commands.len(),
{
    if commands.len() == 0 {
        None
    } else if commands[0].0@ == command {
        Some(commands[0].1@)
    } else {
        first_output(commands.drop_first(), command)
    }
}

/// The status of the first of `statuses` that is `command`.
pub open spec fn first_status(statuses: Seq<(String, bool)>, command: Seq<char>) -> Option<bool>
    decreases statuses.len(),
{
    if statuses.len() == 0 {
        None
    } else if statuses[0].0@ == command {
        Some(statuses[0].1)
    } else {
        first_status(statuses.drop_first(), command)
    }
}

fn lit_is(s: &str, lit: &str) -> (r: bool)
    ensures
        r == (s@ == lit@),
{
    let t = chars_of(s);
    crate::text::eq_lit(t.as_slice(), lit)
}

impl SourceEnvironment for SnapshotEnvironment {
    fn read(&self, path: &str) -> (r: Result<String, String>)
        ensures
            match first_path(self.files@, path@, self.files@.len() as int) {
                Some(i) => if vstd::utf8::encode_utf8(self.files@[i].1@).len() > MAX_FILE_BYTES {
                    r matches Err(e) && e@ == "source size limit"@
                } else {
                    r matches Ok(t) && t@ == self.files@[i].1@
                },
                None => r matches Err(e) && e@ == "missing source: "@ + path@,
            },
    {
        let key = chars_of(path);
        match find_path(&self.files, key.as_slice()) {
            Some(i) => {
                if self.files[i].1.as_str().as_bytes().len() > MAX_FILE_BYTES {
                    return Err(String::from_str("source size limit"));
                }
                Ok(self.files[i].1.clone())
            },
            None => {
                let mut message: Text = Vec::new();
                push_lit(&mut message, "missing source: ");
                push_all(&mut message, key.as_slice());
                Err(string_of(message.as_slice()))
            },
        }
    }

    fn test(&self, path: &str, operator: &str) -> (r: Option<bool>)
        ensures
            r == self.test_answer(path@, operator@),
    {
        let key = chars_of(path);
        let file = self.has_file(key.as_slice());
        let dir = self.has_directory(key.as_slice());
        let link = self.has_link(key.as_slice());
        let is_f = lit_is(operator, "-f");
        let is_d = lit_is(operator, "-d");
        let is_e = lit_is(operator, "-e");
        let is_l = lit_is(operator, "-L") || lit_is(operator, "-h");
        let is_x = lit_is(operator, "-x");
        if is_f && file {
            Some(true)
        } else if is_d && dir {
            Some(true)
        } else if is_e && (file || dir || link) {
            Some(true)
        } else if is_l && link {
            Some(true)
        } else if is_x && self.complete && !file && !dir && !link {
            Some(false)
        } else if (is_f || is_d || is_e || is_l) && self.complete {
            Some(false)
        } else {
            None
        }
    }

    fn command_output(&self, command: &str) -> (r: Option<String>)
        ensures
            (match r {
                Some(t) => Some(t@),
                None => None,
            }) == self.output_of(command@),
    {
        let wanted = String::from_str(command);
        let mut i: usize = 0;
        assert(self.commands@.subrange(0, self.commands@.len() as int) =~= self.commands@);
        while i < self.commands.len()
            invariant
                i <= self.commands.len(),
                wanted@ == command@,
                self.output_of(command@) == first_output(self.commands@.subrange(i as int, self.commands@.len() as int), command@),
            decreases self.commands.len() - i,
        {
            let ghost rest = self.commands@.subrange(i as int, self.commands@.len() as int);
            assert(rest[0] == self.commands@[i as int]);
            assert(rest.drop_first() =~= self.commands@.subrange(i + 1, self.commands@.len() as int));
            if self.commands[i].0 == wanted {
                return Some(self.commands[i].1.clone());
            }
            i += 1;
        }
        None
    }

    fn command_status(&self, command: &str) -> (r: Option<bool>)
        ensures
            r == match first_status(self.statuses@, command@) {
                Some(b) => Some(b),
                None => if self.output_of(command@) is Some {
                    Some(true)
                } else {
                    None
                },
            },
    {
        let wanted = String::from_str(command);
        let mut i: usize = 0;
        assert(self.statuses@.subrange(0, self.statuses@.len() as int) =~= self.statuses@);
        while i < self.statuses.len()
            invariant
                i <= self.statuses.len(),
                wanted@ == command@,
                first_status(self.statuses@, command@) == first_status(self.statuses@.subrange(i as int, self.statuses@.len() as int), command@),
            decreases self.statuses.len() - i,
        {
            let ghost rest = self.statuses@.subrange(i as int, self.statuses@.len() as int);
            assert(rest[0] == self.statuses@[i as int]);
            assert(rest.drop_first() =~= self.statuses@.subrange(i + 1, self.statuses@.len() as int));
            if self.statuses[i].0 == wanted {
                return Some(self.statuses[i].1);
            }
            i += 1;
        }
        match self.command_output(command) {
            Some(_) => Some(true),
            None => None,
        }
    }

    fn canonicalize(&self, path: &str) -> (r: Option<String>)
        ensures
            (match r {
                Some(t) => Some(t@),
                None => None,
            }) == (match first_path(self.links@, path@, self.links@.len() as int) {
                Some(i) => Some(self.links@[i].1@),
                None => None,
            }),
    {
        let key = chars_of(path);
        match find_path(&self.links, key.as_slice()) {
            Some(i) => Some(self.links[i].1.clone()),
            None => None,
        }
    }

    fn runtime_location(&self, path: &str) -> (r: Option<String>)
        ensures
            (match r {
                Some(t) => Some(t@),
                None => None,
            }) == self.location_from(path@, 16),
    {
        let mut current = chars_of(path);
        let mut round: usize = 0;
        while round < 16
            invariant
                round <= 16,
                self.location_from(path@, 16) == self.location_from(current@, (16 - round) as nat),
            decreases 16 - round,
        {
            if current.len() == 0 || current[0] != '/' || has_parent_dir(current.as_slice()) {
                return None;
            }
            match self.resolve_alias(current.as_slice()) {
                Some(target) => {
                    current = target;
                },
                None => {
                    if self.complete {
                        let n = normalize(current.as_slice());
                        return Some(string_of(n.as_slice()));
                    }
                    return None;
                },
            }
            round += 1;
        }
        None
    }
}

// ---------------------------------------------------------------------------
// Sources on the device's filesystem.

/// The files a source read may open: text (`.txt`), shell (`.sh`) and
/// include (`.inc`) files, and the helpers named `tasksetter` and `fallback`.
pub open spec fn source_type_ok(path: Seq<char>) -> bool {
    let ext = match crate::paths::file_name_of(path) {
        Some(name) => crate::paths::extension_of(name),
        None => None,
    };
    ||| ext == Some("txt"@)
    ||| ext == Some("sh"@)
    ||| ext == Some("inc"@)
    ||| crate::paths::file_name_of(path) == Some("tasksetter"@)
    ||| crate::paths::file_name_of(path) == Some("fallback"@)
}

pub fn source_type_allowed(path: &str) -> (r: bool)
    ensures
        r == source_type_ok(path@),
{
    let p = chars_of(path);
    let ext_ok = match crate::paths::extension(p.as_slice()) {
        Some(e) => crate::text::eq_lit(e.as_slice(), "txt") || crate::text::eq_lit(e.as_slice(), "sh")
            || crate::text::eq_lit(e.as_slice(), "inc"),
        None => false,
    };
    let name_ok = match crate::paths::file_name(p.as_slice()) {
        Some(n) => crate::text::eq_lit(n.as_slice(), "tasksetter") || crate::text::eq_lit(n.as_slice(), "fallback"),
        None => false,
    };
    ext_ok || name_ok
}

/// A configured source root must be absolute and not `/` itself.
pub open spec fn root_ok(p: Seq<char>) -> bool {
    crate::paths::is_absolute(p) && !crate::storage::same_path(p, "/"@)
}

pub fn usable_source_root(path: &str) -> (r: bool)
    ensures
        r == root_ok(path@),
{
    let p = chars_of(path);
    p.len() > 0 && p[0] == '/' && !crate::storage::path_eq(p.as_slice(), chars_of("/").as_slice())
}

/// Where a source read looks: the canonical root of the first configured
/// root that holds the path (by its configured or its canonical name), and
/// the components below it. A path with a `..` component is never read.
pub open spec fn source_root_of(roots: Seq<(String, String)>, path: Seq<char>, n: int) -> Option<(Seq<char>, Seq<Seq<char>>)>
    decreases n,
{
    if n <= 0 {
        None
    } else {
        match source_root_of(roots, path, n - 1) {
            Some(found) => Some(found),
            None => {
                let (logical, canonical) = roots[n - 1];
                match crate::paths::stripped(path, logical@) {
                    Some(rest) => Some((canonical@, rest)),
                    None => match crate::paths::stripped(path, canonical@) {
                        Some(rest) => Some((canonical@, rest)),
                        None => None,
                    },
                }
            },
        }
    }
}

proof fn lemma_root_found_stays(roots: Seq<(String, String)>, path: Seq<char>, n: int, m: int)
    requires
        0 < n <= m,
        source_root_of(roots, path, n) is Some,
    ensures
        source_root_of(roots, path, m) == source_root_of(roots, path, n),
    decreases m - n,
{
    if m > n {
        lemma_root_found_stays(roots, path, n, m - 1);
    }
}

pub open spec fn has_dot_dot(path: Seq<char>) -> bool {
    exists|k: int| 0 <= k < crate::paths::components(path).len() && crate::paths::is_dot_dot(#[trigger] crate::paths::components(path)[k])
}

/// Resolves a source path against the configured `(root, canonical root)`
/// pairs.
pub fn resolve_source(roots: &Vec<(String, String)>, path: &str) -> (r: Option<(String, Vec<Text>)>)
    ensures
        has_dot_dot(path@) ==> r is None,
        !has_dot_dot(path@) ==> match source_root_of(roots@, path@, roots.len() as int) {
            None => r is None,
            Some((root, rest)) => r matches Some((x, y)) && x@ == root && crate::paths::views(y@) == rest,
        },
{
    let p = chars_of(path);
    if crate::paths::has_parent_dir(p.as_slice()) {
        return None;
    }
    let mut i: usize = 0;
    while i < roots.len()
        invariant
            i <= roots.len(),
            p@ == path@,
            !has_dot_dot(path@),
            source_root_of(roots@, path@, i as int) is None,
        decreases roots.len() - i,
    {
        let (logical, canonical) = (&roots[i].0, &roots[i].1);
        let found = match strip_prefix(p.as_slice(), chars_of(logical.as_str()).as_slice()) {
            Some(rest) => Some(rest),
            None => strip_prefix(p.as_slice(), chars_of(canonical.as_str()).as_slice()),
        };
        if let Some(rest) = found {
            assert(source_root_of(roots@, path@, i + 1) == Some((canonical@, crate::paths::views(rest@))));
            proof {
                lemma_root_found_stays(roots@, path@, i + 1, roots.len() as int);
            }
            return Some((canonical.clone(), rest));
        }
        i += 1;
    }
    None
}

/// The answer to a shell file test (`-d`, `-f`, `-e`) on an existing path.
pub fn file_test_answer(operator: &str, is_dir: bool, is_file: bool) -> (r: Option<bool>)
    ensures
        operator@ == "-d"@ ==> r == Some(is_dir),
        operator@ == "-f"@ ==> r == Some(is_file),
        operator@ == "-e"@ ==> r == Some(true),
        operator@ != "-d"@ && operator@ != "-f"@ && operator@ != "-e"@ ==> r is None,
{
    let o = chars_of(operator);
    proof {
        reveal_strlit("-d");
        reveal_strlit("-f");
        reveal_strlit("-e");
        assert("-d"@[1] != "-f"@[1] && "-d"@[1] != "-e"@[1] && "-f"@[1] != "-e"@[1]);
    }
    if crate::text::eq_lit(o.as_slice(), "-d") {
        Some(is_dir)
    } else if crate::text::eq_lit(o.as_slice(), "-f") {
        Some(is_file)
    } else if crate::text::eq_lit(o.as_slice(), "-e") {
        Some(true)
    } else {
        None
    }
}

/// A source file is read only when it is a regular file of at most
/// `MAX_FILE_BYTES`.
pub fn check_source_file(is_file: bool, len: u64) -> (r: Result<(), String>)
    ensures
        r is Ok <==> is_file && len <= MAX_FILE_BYTES,
        r matches Err(e) ==> e@ == "source type/size limit"@,
{
    if !is_file || len > MAX_FILE_BYTES as u64 {
        return Err("source type/size limit".to_owned());
    }
    Ok(())
}

/// The text of the bytes read from a source file: refused when they grew
/// beyond the limit while being read, or are not UTF-8.
pub fn source_text(bytes: Vec<u8>) -> (r: Result<String, String>)
    ensures
        bytes.len() > MAX_FILE_BYTES ==> (r matches Err(e) && e@ == "source grew beyond limit"@),
        bytes.len() <= MAX_FILE_BYTES ==> match r {
            Ok(t) => vstd::utf8::valid_utf8(bytes@) && t@ == vstd::utf8::decode_utf8(bytes@),
            Err(e) => !vstd::utf8::valid_utf8(bytes@) && e@ == "source is not UTF-8"@,
        },
{
    if bytes.len() > MAX_FILE_BYTES {
        return Err("source grew beyond limit".to_owned());
    }
    match crate::storage::text_from_utf8(bytes) {
        Some(t) => Ok(t),
        None => Err("source is not UTF-8".to_owned()),
    }
}

} // verus!

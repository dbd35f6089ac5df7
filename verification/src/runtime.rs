//! Official runtime metadata: which downloadable runtime images exist, for
//! which architecture, and where they come from.
use vstd::prelude::*;

use crate::task::{CancellationToken, ProgressChannel};
use crate::text::{
    chars_of, contains_seq, decimal, decimal_spec, ends_with_lit, eq_lit, is_prefix, is_suffix,
    push_all, push_lit, slice, spec_is_ascii_alphanumeric, spec_lower, starts_with_lit, string_of,
    text_eq, to_ascii_lowercase, Text,
};
use crate::textset::{lemma_text_lt_irreflexive, lemma_text_lt_total, text_lt, text_order, Order};

verus! {

/// The release download location that every runtime image must come from.
pub open spec fn official_prefix() -> Seq<char> {
    "https://github.com/PortsMaster/PortMaster-New/releases/download/"@
}

/// Largest metadata document that is parsed.
pub const MAX_METADATA_BYTES: usize = 33554432;

/// One downloadable runtime image.
#[derive(Clone, Debug, PartialEq, Eq)]
pub struct RuntimeMetadataEntry {
    pub name: String,
    pub arch: String,
    pub size: u64,
    pub md5: String,
    pub url: String,
}

/// A runtime as the metadata document describes it, before validation.
#[derive(Clone, Debug)]
pub struct RawRuntime {
    pub runtime_name: String,
    pub runtime_arch: String,
    pub size: u64,
    pub md5: String,
    pub url: String,
}

/// The official runtime images, one per name and architecture, ordered by
/// name and then architecture.
#[derive(Clone, Debug)]
pub struct RuntimeMetadata {
    entries: Vec<RuntimeMetadataEntry>,
}

/// Why a runtime could not be repaired.
#[derive(Debug)]
pub enum RuntimeRepairError {
    InvalidMetadata(String),
    UnsupportedArchitecture(String),
    InvalidName(String),
    MissingMetadata { name: String, arch: String },
    Cancelled,
    UnsafePath(String),
    Download(String),
    Validation(String),
    Io(String),
}

/// Where a repaired runtime came from.
#[derive(Clone, Copy, Debug, PartialEq, Eq, Structural)]
pub enum RuntimeRepairSource {
    Current,
    Cache,
    Network,
}

/// A request to repair runtime images under a libs directory.
#[derive(Clone, Debug)]
pub struct RuntimeRepairRequest {
    pub metadata: Vec<u8>,
    pub runtime_names: Vec<String>,
    pub arch: String,
    pub libs_root: String,
    pub progress_file: String,
    pub cancel_file: Option<String>,
    pub cancel_token: Option<CancellationToken>,
    pub progress_channel: Option<ProgressChannel>,
}

/// One repaired runtime.
#[derive(Clone, Debug, PartialEq, Eq)]
pub struct RuntimeRepairItem {
    pub name: String,
    pub source: RuntimeRepairSource,
    pub route_id: Option<String>,
}

/// The result of a runtime repair.
#[derive(Clone, Debug, PartialEq, Eq)]
pub struct RuntimeRepairOutcome {
    pub schema: u32,
    pub arch: String,
    pub runtimes: Vec<RuntimeRepairItem>,
}

/// The text of an error.
pub open spec fn error_text(e: RuntimeRepairError) -> Seq<char> {
    match e {
        RuntimeRepairError::InvalidMetadata(m) => "invalid official Runtime metadata: "@ + m@,
        RuntimeRepairError::UnsupportedArchitecture(m) => "unsupported Runtime architecture: "@ + m@,
        RuntimeRepairError::InvalidName(m) => "invalid Runtime name: "@ + m@,
        RuntimeRepairError::MissingMetadata { name, arch } => "Runtime metadata does not contain "@ + name@
            + " for "@ + arch@,
        RuntimeRepairError::Cancelled => "Runtime repair was cancelled"@,
        RuntimeRepairError::UnsafePath(m) => "unsafe Runtime repair path: "@ + m@,
        RuntimeRepairError::Download(m) => "Runtime download failed: "@ + m@,
        RuntimeRepairError::Validation(m) => "Runtime image failed strict validation: "@ + m@,
        RuntimeRepairError::Io(m) => "Runtime repair I/O failed: "@ + m@,
    }
}

impl RuntimeRepairError {
    /// The display text of the error.
    pub fn message(&self) -> (r: String)
        ensures
            r@ == error_text(*self),
    {
        let mut out: Vec<char> = Vec::new();
        match self {
            RuntimeRepairError::InvalidMetadata(m) => {
                push_lit(&mut out, "invalid official Runtime metadata: ");
                push_all(&mut out, chars_of(m.as_str()).as_slice());
            },
            RuntimeRepairError::UnsupportedArchitecture(m) => {
                push_lit(&mut out, "unsupported Runtime architecture: ");
                push_all(&mut out, chars_of(m.as_str()).as_slice());
            },
            RuntimeRepairError::InvalidName(m) => {
                push_lit(&mut out, "invalid Runtime name: ");
                push_all(&mut out, chars_of(m.as_str()).as_slice());
            },
            RuntimeRepairError::MissingMetadata { name, arch } => {
                push_lit(&mut out, "Runtime metadata does not contain ");
                push_all(&mut out, chars_of(name.as_str()).as_slice());
                push_lit(&mut out, " for ");
                push_all(&mut out, chars_of(arch.as_str()).as_slice());
            },
            RuntimeRepairError::Cancelled => {
                push_lit(&mut out, "Runtime repair was cancelled");
            },
            RuntimeRepairError::UnsafePath(m) => {
                push_lit(&mut out, "unsafe Runtime repair path: ");
                push_all(&mut out, chars_of(m.as_str()).as_slice());
            },
            RuntimeRepairError::Download(m) => {
                push_lit(&mut out, "Runtime download failed: ");
                push_all(&mut out, chars_of(m.as_str()).as_slice());
            },
            RuntimeRepairError::Validation(m) => {
                push_lit(&mut out, "Runtime image failed strict validation: ");
                push_all(&mut out, chars_of(m.as_str()).as_slice());
            },
            RuntimeRepairError::Io(m) => {
                push_lit(&mut out, "Runtime repair I/O failed: ");
                push_all(&mut out, chars_of(m.as_str()).as_slice());
            },
        }
        string_of(out.as_slice())
    }
}

// ---------------------------------------------------------------------------
// Validation of one runtime.

pub open spec fn asset_char(c: char) -> bool {
    spec_is_ascii_alphanumeric(c) || c == '.' || c == '_' || c == '+' || c == '-'
}

/// A downloadable asset name: non-empty, ASCII letters, digits and `. _ + -`.
pub open spec fn safe_asset(name: Seq<char>) -> bool {
    name.len() > 0 && forall|i: int| 0 <= i < name.len() ==> asset_char(#[trigger] name[i])
}

/// A runtime name: a safe asset name that is not hidden and has no `..`.
pub open spec fn safe_runtime(name: Seq<char>) -> bool {
    safe_asset(name) && name[0] != '.' && !contains_seq(name, seq!['.', '.'])
}

pub open spec fn hex_digit(c: char) -> bool {
    ('0' <= c && c <= '9') || ('a' <= c && c <= 'f') || ('A' <= c && c <= 'F')
}

pub open spec fn supported_arch(arch: Seq<char>) -> bool {
    arch == "aarch64"@ || arch == "armhf"@ || arch == "x86_64"@
}

/// The checks on the fields of a raw runtime that need no URL parsing.
pub open spec fn raw_fields_valid(raw: RawRuntime) -> bool {
    &&& supported_arch(raw.runtime_arch@)
    &&& raw.size != 0
    &&& raw.md5@.len() == 32
    &&& forall|i: int| 0 <= i < raw.md5@.len() ==> hex_digit(#[trigger] raw.md5@[i])
    &&& is_suffix(".squashfs"@, raw.runtime_name@)
    &&& safe_asset(raw.runtime_name@)
}

/// The URL of a raw runtime is `OFFICIAL/<release>/<asset>` with a non-empty
/// release without `/` and the asset equal to the runtime name.
pub open spec fn official_url(raw: RawRuntime) -> bool {
    let url = raw.url@;
    &&& is_prefix(official_prefix(), url)
    &&& {
        let rest = url.subrange(official_prefix().len() as int, url.len() as int);
        let k = crate::text::index_first(rest, '/');
        &&& rest.contains('/')
        &&& k > 0
        &&& rest.subrange(k + 1, rest.len() as int) == raw.runtime_name@
    }
}

/// The runtime name without its `.squashfs` suffix.
pub open spec fn runtime_stem(raw: RawRuntime) -> Seq<char> {
    raw.runtime_name@.subrange(0, raw.runtime_name@.len() - ".squashfs"@.len())
}

/// Is `raw` a canonical official runtime?
pub open spec fn raw_valid(raw: RawRuntime) -> bool {
    raw_fields_valid(raw) && official_url(raw) && safe_runtime(runtime_stem(raw))
}

/// An entry of the official metadata: a supported architecture, a safe
/// runtime name, a positive size, a lower-case hexadecimal MD5 digest and an
/// official download URL.
pub open spec fn official_entry(e: RuntimeMetadataEntry) -> bool {
    &&& supported_arch(e.arch@)
    &&& safe_runtime(e.name@)
    &&& e.size > 0
    &&& e.md5@.len() == 32
    &&& forall|i: int| 0 <= i < e.md5@.len() ==> lower_hex_digit(#[trigger] e.md5@[i])
    &&& is_prefix(official_prefix(), e.url@)
}

pub open spec fn lower_hex_digit(c: char) -> bool {
    ('0' <= c && c <= '9') || ('a' <= c && c <= 'f')
}

/// Every entry built from a valid raw runtime is an official entry.
pub proof fn lemma_valid_raw_gives_official_entry(raw: RawRuntime, e: RuntimeMetadataEntry)
    requires
        raw_valid(raw),
        entry_of(raw, e),
    ensures
        official_entry(e),
{
    assert forall|i: int| 0 <= i < e.md5@.len() implies lower_hex_digit(#[trigger] e.md5@[i]) by {
        assert(hex_digit(raw.md5@[i]));
        assert(e.md5@[i] == spec_lower(raw.md5@[i]));
    }
}

/// The entry that a valid raw runtime becomes.
pub open spec fn entry_of(raw: RawRuntime, e: RuntimeMetadataEntry) -> bool {
    &&& e.name@ == runtime_stem(raw)
    &&& e.arch@ == raw.runtime_arch@
    &&& e.size == raw.size
    &&& e.md5@ == raw.md5@.map_values(|c: char| spec_lower(c))
    &&& e.url@ == raw.url@
}

pub fn is_asset_char(c: char) -> (r: bool)
    ensures
        r == asset_char(c),
{
    crate::text::is_ascii_alphanumeric(c) || c == '.' || c == '_' || c == '+' || c == '-'
}

/// Is `name` a safe asset name?
pub fn safe_asset_name(name: &[char]) -> (r: bool)
    ensures
        r == safe_asset(name@),
{
    if name.len() == 0 {
        return false;
    }
    let mut i: usize = 0;
    while i < name.len()
        invariant
            i <= name.len(),
            forall|j: int| 0 <= j < i ==> asset_char(#[trigger] name@[j]),
        decreases name.len() - i,
    {
        if !is_asset_char(name[i]) {
            return false;
        }
        i += 1;
    }
    true
}

/// Is `name` a safe runtime name?
pub fn safe_runtime_name(name: &[char]) -> (r: bool)
    ensures
        r == safe_runtime(name@),
{
    if !safe_asset_name(name) || name[0] == '.' {
        return false;
    }
    let dots = vec!['.', '.'];
    assert(dots@ =~= seq!['.', '.']);
    !crate::text::contains_text(name, dots.as_slice())
}

fn all_hex(t: &[char]) -> (r: bool)
    ensures
        r == forall|i: int| 0 <= i < t@.len() ==> hex_digit(#[trigger] t@[i]),
{
    let mut i: usize = 0;
    while i < t.len()
        invariant
            i <= t.len(),
            forall|j: int| 0 <= j < i ==> hex_digit(#[trigger] t@[j]),
        decreases t.len() - i,
    {
        let c = t[i];
        if !(('0' <= c && c <= '9') || ('a' <= c && c <= 'f') || ('A' <= c && c <= 'F')) {
            return false;
        }
        i += 1;
    }
    true
}

/// Validates one raw runtime; `None` when it is not a canonical official runtime.
pub fn validate_raw_runtime(raw: &RawRuntime) -> (r: Option<RuntimeMetadataEntry>)
    ensures
        r is Some <==> raw_valid(*raw),
        r matches Some(e) ==> entry_of(*raw, e),
{
    let name = chars_of(raw.runtime_name.as_str());
    let arch = chars_of(raw.runtime_arch.as_str());
    let md5 = chars_of(raw.md5.as_str());
    let url = chars_of(raw.url.as_str());
    if !(eq_lit(arch.as_slice(), "aarch64") || eq_lit(arch.as_slice(), "armhf") || eq_lit(
        arch.as_slice(),
        "x86_64",
    )) || raw.size == 0 || md5.len() != 32 || !all_hex(md5.as_slice()) || !ends_with_lit(
        name.as_slice(),
        ".squashfs",
    ) || !safe_asset_name(name.as_slice()) {
        return None;
    }
    let prefix = chars_of("https://github.com/PortsMaster/PortMaster-New/releases/download/");
    if !crate::text::starts_with(url.as_slice(), prefix.as_slice()) {
        return None;
    }
    let rest = slice(url.as_slice(), prefix.len(), url.len());
    let k = crate::text::index_of_first(rest.as_slice(), '/');
    if k == rest.len() || k == 0 {
        return None;
    }
    let asset = slice(rest.as_slice(), k + 1, rest.len());
    if !text_eq(asset.as_slice(), name.as_slice()) {
        return None;
    }
    let suffix = chars_of(".squashfs");
    let stem = slice(name.as_slice(), 0, name.len() - suffix.len());
    if !safe_runtime_name(stem.as_slice()) {
        return None;
    }
    Some(
        RuntimeMetadataEntry {
            name: string_of(stem.as_slice()),
            arch: raw.runtime_arch.clone(),
            size: raw.size,
            md5: string_of(to_ascii_lowercase(md5.as_slice()).as_slice()),
            url: raw.url.clone(),
        },
    )
}

// ---------------------------------------------------------------------------
// The metadata set.

/// Entries ordered by name, then architecture.
pub open spec fn key_lt(a: RuntimeMetadataEntry, b: RuntimeMetadataEntry) -> bool {
    text_lt(a.name@, b.name@) || (a.name@ == b.name@ && text_lt(a.arch@, b.arch@))
}

impl RuntimeMetadata {
    /// Entries are strictly ordered by key, so no key repeats.
    pub open spec fn wf(&self) -> bool {
        &&& forall|i: int, j: int| 0 <= i < j < self.entries_view().len() ==> key_lt(#[trigger] self.entries_view()[i], #[trigger] self.entries_view()[j])
        &&& forall|i: int| 0 <= i < self.entries_view().len() ==> official_entry(#[trigger] self.entries_view()[i])
    }

    /// The entries, in key order.
    pub closed spec fn entries_view(&self) -> Seq<RuntimeMetadataEntry> {
        self.entries@
    }

    /// The entry for `name` and `arch`, if any.
    pub fn get(&self, name: &str, arch: &str) -> (r: Option<&RuntimeMetadataEntry>)
        ensures
            r matches Some(e) ==> e.name@ == name@ && e.arch@ == arch@ && exists|i: int|
                0 <= i < self.entries_view().len() && self.entries_view()[i] == *e,
            r is None ==> forall|i: int|
                0 <= i < self.entries_view().len() ==> !(#[trigger] self.entries_view()[i].name@ == name@
                    && self.entries_view()[i].arch@ == arch@),
    {
        let n = chars_of(name);
        let a = chars_of(arch);
        let mut i: usize = 0;
        while i < self.entries.len()
            invariant
                i <= self.entries.len(),
                n@ == name@,
                a@ == arch@,
                forall|j: int| 0 <= j < i ==> !(#[trigger] self.entries[j].name@ == name@ && self.entries[j].arch@ == arch@),
            decreases self.entries.len() - i,
        {
            let e = &self.entries[i];
            if text_eq(chars_of(e.name.as_str()).as_slice(), n.as_slice()) && text_eq(
                chars_of(e.arch.as_str()).as_slice(),
                a.as_slice(),
            ) {
                assert(self.entries_view()[i as int] == *e);
                return Some(e);
            }
            i += 1;
        }
        None
    }

    /// The entries, ordered by name and then architecture.
    pub fn entries(&self) -> (r: &Vec<RuntimeMetadataEntry>)
        ensures
            r@ == self.entries_view(),
    {
        &self.entries
    }

    /// One line per entry, in key order: name, architecture, size, MD5 and URL
    /// separated by tabs.
    pub fn to_tsv(&self) -> (r: String)
        ensures
            r@ == tsv_lines(self.entries_view()),
    {
        let mut out: Vec<char> = Vec::new();
        let mut i: usize = 0;
        while i < self.entries.len()
            invariant
                i <= self.entries.len(),
                out@ == tsv_lines(self.entries@.subrange(0, i as int)),
            decreases self.entries.len() - i,
        {
            let e = &self.entries[i];
            let ghost before = out@;
            push_all(&mut out, chars_of(e.name.as_str()).as_slice());
            out.push('\t');
            push_all(&mut out, chars_of(e.arch.as_str()).as_slice());
            out.push('\t');
            push_all(&mut out, decimal(e.size).as_slice());
            out.push('\t');
            push_all(&mut out, chars_of(e.md5.as_str()).as_slice());
            out.push('\t');
            push_all(&mut out, chars_of(e.url.as_str()).as_slice());
            out.push('\n');
            proof {
                assert(self.entries@.subrange(0, i + 1).drop_last() =~= self.entries@.subrange(0, i as int));
                assert(out@ =~= before + tsv_line(*e));
            }
            i += 1;
        }
        assert(self.entries@.subrange(0, self.entries.len() as int) =~= self.entries@);
        string_of(out.as_slice())
    }
}

/// The TSV line of one entry.
pub open spec fn tsv_line(e: RuntimeMetadataEntry) -> Seq<char> {
    e.name@ + seq!['\t'] + e.arch@ + seq!['\t'] + decimal_spec(e.size as nat) + seq!['\t'] + e.md5@
        + seq!['\t'] + e.url@ + seq!['\n']
}

/// The TSV lines of the entries, in order.
pub open spec fn tsv_lines(es: Seq<RuntimeMetadataEntry>) -> Seq<char>
    decreases es.len(),
{
    if es.len() == 0 {
        Seq::empty()
    } else {
        tsv_lines(es.drop_last()) + tsv_line(es.last())
    }
}


pub open spec fn same_entry_key(a: RuntimeMetadataEntry, b: RuntimeMetadataEntry) -> bool {
    a.name@ == b.name@ && a.arch@ == b.arch@
}

proof fn lemma_key_lt_irreflexive(a: RuntimeMetadataEntry)
    ensures
        !key_lt(a, a),
{
    lemma_text_lt_irreflexive(a.name@);
    lemma_text_lt_irreflexive(a.arch@);
}

proof fn lemma_key_lt_transitive(a: RuntimeMetadataEntry, b: RuntimeMetadataEntry, c: RuntimeMetadataEntry)
    requires
        key_lt(a, b),
        key_lt(b, c),
    ensures
        key_lt(a, c),
{
    if text_lt(a.name@, b.name@) && text_lt(b.name@, c.name@) {
        crate::textset::lemma_text_lt_transitive(a.name@, b.name@, c.name@);
    } else if a.name@ == b.name@ && b.name@ == c.name@ {
        crate::textset::lemma_text_lt_transitive(a.arch@, b.arch@, c.arch@);
    }
}

proof fn lemma_key_lt_same(a: RuntimeMetadataEntry, b: RuntimeMetadataEntry)
    requires
        key_lt(a, b),
    ensures
        !same_entry_key(a, b),
        !key_lt(b, a),
{
    lemma_text_lt_irreflexive(a.name@);
    lemma_text_lt_irreflexive(a.arch@);
    if key_lt(b, a) {
        lemma_key_lt_transitive(a, b, a);
    }
}

/// Compares the keys of two entries.
fn key_order(a: &RuntimeMetadataEntry, b: &RuntimeMetadataEntry) -> (r: Order)
    ensures
        r == Order::Less <==> key_lt(*a, *b),
        r == Order::Greater <==> key_lt(*b, *a),
        r == Order::Equal <==> same_entry_key(*a, *b),
{
    proof {
        lemma_text_lt_irreflexive(a.name@);
        lemma_text_lt_irreflexive(a.arch@);
        lemma_text_lt_total(a.name@, b.name@);
        lemma_text_lt_total(a.arch@, b.arch@);
        crate::textset::lemma_text_lt_irreflexive(b.name@);
        if text_lt(a.name@, b.name@) {
            crate::textset::lemma_text_lt_asymmetric(a.name@, b.name@);
        }
        if text_lt(b.name@, a.name@) {
            crate::textset::lemma_text_lt_asymmetric(b.name@, a.name@);
        }
        if text_lt(a.arch@, b.arch@) {
            crate::textset::lemma_text_lt_asymmetric(a.arch@, b.arch@);
        }
    }
    match text_order(chars_of(a.name.as_str()).as_slice(), chars_of(b.name.as_str()).as_slice()) {
        Order::Less => Order::Less,
        Order::Greater => Order::Greater,
        Order::Equal => text_order(chars_of(a.arch.as_str()).as_slice(), chars_of(b.arch.as_str()).as_slice()),
    }
}

spec fn sorted_entries(s: Seq<RuntimeMetadataEntry>) -> bool {
    forall|i: int, j: int| 0 <= i < j < s.len() ==> key_lt(#[trigger] s[i], #[trigger] s[j])
}

/// Inserts `e` at its place in key order.
fn insert_entry(entries: &mut Vec<RuntimeMetadataEntry>, e: RuntimeMetadataEntry)
    requires
        sorted_entries(old(entries)@),
        forall|i: int| 0 <= i < old(entries).len() ==> !same_entry_key(#[trigger] old(entries)@[i], e),
    ensures
        sorted_entries(final(entries)@),
        forall|x: RuntimeMetadataEntry| #[trigger] final(entries)@.contains(x) <==> (old(entries)@.contains(x) || x == e),
{
    let ghost old_items = entries@;
    let mut k: usize = 0;
    while k < entries.len() && key_order(&entries[k], &e) == Order::Less
        invariant
            entries@ == old_items,
            k <= entries.len(),
            forall|j: int| 0 <= j < k ==> key_lt(#[trigger] entries@[j], e),
        decreases entries.len() - k,
    {
        k += 1;
    }
    proof {
        if k < entries.len() {
            assert(!same_entry_key(entries@[k as int], e));
            assert(key_lt(e, entries@[k as int]));
        }
    }
    entries.insert(k, e);
    proof {
        assert(entries@ == old_items.insert(k as int, e));
        assert forall|i: int, j: int| 0 <= i < j < entries.len() implies key_lt(#[trigger] entries@[i], #[trigger] entries@[j]) by {
            if j < k {
                assert(old_items[i] == entries@[i]);
                assert(old_items[j] == entries@[j]);
            } else if i < k && j == k {
                assert(old_items[i] == entries@[i]);
            } else if i < k && j > k {
                assert(old_items[i] == entries@[i]);
                assert(old_items[j - 1] == entries@[j]);
                assert(key_lt(old_items[i], old_items[j - 1]));
            } else if i == k {
                if j - 1 > k {
                    lemma_key_lt_transitive(e, old_items[k as int], old_items[j - 1]);
                }
            } else {
                assert(old_items[i - 1] == entries@[i]);
                assert(old_items[j - 1] == entries@[j]);
            }
        }
        assert forall|x: RuntimeMetadataEntry| #[trigger] entries@.contains(x) <==> (old_items.contains(x) || x == e) by {
            if entries@.contains(x) {
                let i = choose|i: int| 0 <= i < entries.len() && entries@[i] == x;
                if i < k {
                    assert(old_items[i] == x);
                } else if i > k {
                    assert(old_items[i - 1] == x);
                }
            }
            if old_items.contains(x) {
                let i = choose|i: int| 0 <= i < old_items.len() && old_items[i] == x;
                if i < k {
                    assert(entries@[i] == x);
                } else {
                    assert(entries@[i + 1] == x);
                }
            }
            if x == e {
                assert(entries@[k as int] == x);
            }
        }
    }
}

/// The position of an entry with the key of `e`.
fn find_key(entries: &Vec<RuntimeMetadataEntry>, e: &RuntimeMetadataEntry) -> (r: Option<usize>)
    ensures
        r matches Some(k) ==> k < entries.len() && same_entry_key(entries@[k as int], *e),
        r is None ==> forall|q: int| 0 <= q < entries.len() ==> !same_entry_key(#[trigger] entries@[q], *e),
{
    let mut k: usize = 0;
    while k < entries.len()
        invariant
            k <= entries.len(),
            forall|q: int| 0 <= q < k ==> !same_entry_key(#[trigger] entries@[q], *e),
        decreases entries.len() - k,
    {
        if key_order(&entries[k], e) == Order::Equal {
            return Some(k);
        }
        k += 1;
    }
    None
}

/// Two raw runtimes name the same runtime for the same architecture.
pub open spec fn same_raw_key(a: RawRuntime, b: RawRuntime) -> bool {
    runtime_stem(a) == runtime_stem(b) && a.runtime_arch@ == b.runtime_arch@
}

/// The raw runtime at `j` is valid and repeats the key of an earlier valid one.
pub open spec fn duplicate_at(raws: Seq<RawRuntime>, j: int) -> bool {
    &&& 0 <= j < raws.len()
    &&& raw_valid(raws[j])
    &&& exists|i: int| 0 <= i < j && raw_valid(#[trigger] raws[i]) && same_raw_key(raws[i], raws[j])
}

pub open spec fn duplicate_message(raw: RawRuntime) -> Seq<char> {
    "duplicate Runtime metadata for "@ + runtime_stem(raw) + " ("@ + raw.runtime_arch@ + ")"@
}

/// The entries of `m` are exactly the entries of the valid raw runtimes.
pub open spec fn built_from(m: Seq<RuntimeMetadataEntry>, raws: Seq<RawRuntime>) -> bool {
    &&& forall|k: int| 0 <= k < m.len() ==> #[trigger] sourced(m[k], raws)
    &&& forall|i: int| 0 <= i < raws.len() && raw_valid(#[trigger] raws[i]) ==> listed_entry(raws[i], m)
}

/// `e` is the entry of a valid raw runtime.
pub open spec fn sourced(e: RuntimeMetadataEntry, raws: Seq<RawRuntime>) -> bool {
    exists|i: int| 0 <= i < raws.len() && raw_valid(raws[i]) && #[trigger] entry_of(raws[i], e)
}

/// The entry of `raw` is among `m`.
pub open spec fn listed_entry(raw: RawRuntime, m: Seq<RuntimeMetadataEntry>) -> bool {
    exists|k: int| 0 <= k < m.len() && entry_of(raw, #[trigger] m[k])
}

/// Metadata built from a document with a valid runtime is non-empty, its
/// entries are strictly ordered by name and then architecture, and each is an
/// official entry with an official download URL.
pub proof fn lemma_built_metadata(m: RuntimeMetadata, raws: Seq<RawRuntime>)
    requires
        m.wf(),
        built_from(m.entries_view(), raws),
        exists|i: int| 0 <= i < raws.len() && raw_valid(#[trigger] raws[i]),
    ensures
        m.entries_view().len() > 0,
        forall|i: int, j: int| 0 <= i < j < m.entries_view().len() ==> key_lt(#[trigger] m.entries_view()[i], #[trigger] m.entries_view()[j]),
        forall|i: int|
            0 <= i < m.entries_view().len() ==> official_entry(#[trigger] m.entries_view()[i]) && is_prefix(
                official_prefix(),
                m.entries_view()[i].url@,
            ),
{
    let i = choose|i: int| 0 <= i < raws.len() && raw_valid(#[trigger] raws[i]);
    assert(listed_entry(raws[i], m.entries_view()));
}

impl RuntimeMetadata {
    /// Builds the metadata from the runtimes of a metadata document, in
    /// document order: invalid runtimes are skipped, a repeated name and
    /// architecture is an error, and at least one runtime must be valid.
    pub fn from_raw_entries(raws: Vec<RawRuntime>) -> (r: Result<RuntimeMetadata, RuntimeRepairError>)
        ensures
            r matches Ok(m) ==> m.wf() && built_from(m.entries_view(), raws@),
            r is Ok <==> (forall|j: int| !duplicate_at(raws@, j)) && exists|i: int| 0 <= i < raws.len() && raw_valid(#[trigger] raws@[i]),
            r matches Err(e) ==> match e {
                RuntimeRepairError::InvalidMetadata(m) => (exists|j: int| #[trigger] duplicate_at(raws@, j) && (forall|k: int| 0 <= k < j ==> !duplicate_at(raws@, k))
                    && m@ == duplicate_message(raws@[j])) || ((forall|j: int| !duplicate_at(raws@, j))
                    && m@ == "ports.json contains no valid Runtime entries"@),
                _ => false,
            },
    {
        let ghost all = raws@;
        let mut entries: Vec<RuntimeMetadataEntry> = Vec::new();
        let mut i: usize = 0;
        while i < raws.len()
            invariant
                all == raws@,
                i <= raws.len(),
                sorted_entries(entries@),
                forall|j: int| 0 <= j < i ==> !duplicate_at(all, j),
                forall|k: int| 0 <= k < entries.len() ==> #[trigger] from_prefix(entries@[k], all, i as int),
                forall|m: int| 0 <= m < i && raw_valid(#[trigger] all[m]) ==> represented(all[m], entries@),
            decreases raws.len() - i,
        {
            match validate_raw_runtime(&raws[i]) {
                None => {
                    proof {
                        lemma_prefix_grows(entries@, all, i as int);
                    }
                },
                Some(e) => {
                    if let Some(k) = find_key(&entries, &e) {
                        proof {
                            assert(from_prefix(entries@[k as int], all, i as int));
                            let m = choose|m: int| 0 <= m < i && raw_valid(all[m]) && #[trigger] entry_of(all[m], entries@[k as int]);
                            assert(same_raw_key(all[m], all[i as int]));
                            assert(duplicate_at(all, i as int));
                        }
                        let mut message = chars_of("duplicate Runtime metadata for ");
                        push_all(&mut message, chars_of(e.name.as_str()).as_slice());
                        push_lit(&mut message, " (");
                        push_all(&mut message, chars_of(e.arch.as_str()).as_slice());
                        push_lit(&mut message, ")");
                        return Err(RuntimeRepairError::InvalidMetadata(string_of(message.as_slice())));
                    }
                    proof {
                        assert forall|m: int| 0 <= m < i && raw_valid(all[m]) implies !same_raw_key(all[m], all[i as int]) by {
                            assert(represented(all[m], entries@));
                            let q = choose|q: int| 0 <= q < entries.len() && entry_of(all[m], #[trigger] entries@[q]);
                            assert(!same_entry_key(entries@[q], e));
                        }
                        assert(!duplicate_at(all, i as int));
                    }
                    let ghost before = entries@;
                    insert_entry(&mut entries, e);
                    proof {
                        lemma_after_insert(before, entries@, all, i as int, e);
                    }
                },
            }
            i += 1;
        }
        if entries.len() == 0 {
            proof {
                assert forall|j: int| 0 <= j < raws.len() implies !raw_valid(#[trigger] all[j]) by {
                    if raw_valid(all[j]) {
                        assert(represented(all[j], entries@));
                    }
                }
            }
            return Err(RuntimeRepairError::InvalidMetadata("ports.json contains no valid Runtime entries".to_owned()));
        }
        proof {
            lemma_built(entries@, all);
            assert(from_prefix(entries@[0], all, raws.len() as int));
            let m = choose|m: int| 0 <= m < raws.len() && raw_valid(all[m]) && #[trigger] entry_of(all[m], entries@[0]);
            assert(raw_valid(raws@[m]));
        }
        let ghost final_entries = entries@;
        let out = RuntimeMetadata { entries };
        assert(out.entries_view() == final_entries);
        assert(sorted_entries(out.entries_view()));
        assert(out.wf());
        assert(built_from(final_entries, all));
        Ok(out)
    }
}

proof fn lemma_built(entries: Seq<RuntimeMetadataEntry>, all: Seq<RawRuntime>)
    requires
        forall|k: int| 0 <= k < entries.len() ==> #[trigger] from_prefix(entries[k], all, all.len() as int),
        forall|m: int| 0 <= m < all.len() && raw_valid(#[trigger] all[m]) ==> represented(all[m], entries),
    ensures
        built_from(entries, all),
        forall|k: int| 0 <= k < entries.len() ==> official_entry(#[trigger] entries[k]),
{
    assert forall|k: int| 0 <= k < entries.len() implies official_entry(#[trigger] entries[k]) by {
        assert(from_prefix(entries[k], all, all.len() as int));
        let m = choose|m: int| 0 <= m < all.len() && raw_valid(all[m]) && #[trigger] entry_of(all[m], entries[k]);
        lemma_valid_raw_gives_official_entry(all[m], entries[k]);
    }
    assert forall|k: int| 0 <= k < entries.len() implies #[trigger] sourced(entries[k], all) by {
        assert(from_prefix(entries[k], all, all.len() as int));
    }
    assert forall|i: int| 0 <= i < all.len() && raw_valid(#[trigger] all[i]) implies listed_entry(all[i], entries) by {
        assert(represented(all[i], entries));
    }
}

/// `e` is the entry of a valid raw runtime among the first `n`.
spec fn from_prefix(e: RuntimeMetadataEntry, all: Seq<RawRuntime>, n: int) -> bool {
    exists|m: int| 0 <= m < n && raw_valid(all[m]) && #[trigger] entry_of(all[m], e)
}

/// The entry of `raw` is among `entries`.
spec fn represented(raw: RawRuntime, entries: Seq<RuntimeMetadataEntry>) -> bool {
    exists|k: int| 0 <= k < entries.len() && entry_of(raw, #[trigger] entries[k])
}

proof fn lemma_prefix_grows(entries: Seq<RuntimeMetadataEntry>, all: Seq<RawRuntime>, n: int)
    requires
        forall|k: int| 0 <= k < entries.len() ==> #[trigger] from_prefix(entries[k], all, n),
    ensures
        forall|k: int| 0 <= k < entries.len() ==> #[trigger] from_prefix(entries[k], all, n + 1),
{
    assert forall|k: int| 0 <= k < entries.len() implies #[trigger] from_prefix(entries[k], all, n + 1) by {
        assert(from_prefix(entries[k], all, n));
        let m = choose|m: int| 0 <= m < n && raw_valid(all[m]) && #[trigger] entry_of(all[m], entries[k]);
    }
}

proof fn lemma_after_insert(
    before: Seq<RuntimeMetadataEntry>,
    after: Seq<RuntimeMetadataEntry>,
    all: Seq<RawRuntime>,
    i: int,
    e: RuntimeMetadataEntry,
)
    requires
        0 <= i < all.len(),
        raw_valid(all[i]),
        entry_of(all[i], e),
        forall|x: RuntimeMetadataEntry| #[trigger] after.contains(x) <==> (before.contains(x) || x == e),
        forall|k: int| 0 <= k < before.len() ==> #[trigger] from_prefix(before[k], all, i),
        forall|m: int| 0 <= m < i && raw_valid(#[trigger] all[m]) ==> represented(all[m], before),
    ensures
        forall|k: int| 0 <= k < after.len() ==> #[trigger] from_prefix(after[k], all, i + 1),
        forall|m: int| 0 <= m < i + 1 && raw_valid(#[trigger] all[m]) ==> represented(all[m], after),
{
    assert forall|k: int| 0 <= k < after.len() implies #[trigger] from_prefix(after[k], all, i + 1) by {
        assert(after.contains(after[k]));
        if before.contains(after[k]) {
            let q = choose|q: int| 0 <= q < before.len() && before[q] == after[k];
            assert(from_prefix(before[q], all, i));
            let m = choose|m: int| 0 <= m < i && raw_valid(all[m]) && #[trigger] entry_of(all[m], before[q]);
        } else {
            assert(entry_of(all[i], after[k]));
        }
    }
    assert forall|m: int| 0 <= m < i + 1 && raw_valid(#[trigger] all[m]) implies represented(all[m], after) by {
        if m < i {
            assert(represented(all[m], before));
            let q = choose|q: int| 0 <= q < before.len() && entry_of(all[m], #[trigger] before[q]);
            assert(after.contains(before[q]));
            let k = choose|k: int| 0 <= k < after.len() && after[k] == before[q];
            assert(entry_of(all[m], after[k]));
        } else {
            assert(after.contains(e));
            let k = choose|k: int| 0 <= k < after.len() && after[k] == e;
            assert(entry_of(all[m], after[k]));
        }
    }
}



/// Rejects a metadata document that is empty or larger than 32 MiB.
pub fn check_metadata_size(len: usize) -> (r: Result<(), RuntimeRepairError>)
    ensures
        r is Ok <==> 0 < len <= MAX_METADATA_BYTES,
        r matches Err(e) ==> e matches RuntimeRepairError::InvalidMetadata(m) && m@ == "ports.json is empty or exceeds 32 MiB"@,
{
    if len == 0 || len > MAX_METADATA_BYTES {
        Err(RuntimeRepairError::InvalidMetadata("ports.json is empty or exceeds 32 MiB".to_owned()))
    } else {
        Ok(())
    }
}

/// Cancellation of a repair: requested through the shared token, or by the
/// presence of the cancel file (whose existence the caller checked).
pub fn check_cancel(token: Option<&CancellationToken>, cancel_file_exists: bool) -> (r: Result<(), RuntimeRepairError>)
    ensures
        cancel_file_exists ==> r is Err,
        token is None && !cancel_file_exists ==> r is Ok,
        r matches Err(e) ==> e is Cancelled,
{
    let cancelled = match token {
        Some(t) => t.is_cancelled(),
        None => false,
    };
    if cancelled || cancel_file_exists {
        Err(RuntimeRepairError::Cancelled)
    } else {
        Ok(())
    }
}

// ---------------------------------------------------------------------------
// Image validation.

/// The validation of a downloaded or copied runtime image, fed with the
/// image's content as it is read: the file must be a regular file of the
/// expected size, start with the SquashFS magic `hsqs`, and have the expected
/// MD5 digest.
pub struct ImageValidation {
    name: String,
    md5: String,
    context: md5::Context,
}

impl ImageValidation {
    /// The entry's name, which every validation failure reports.
    pub closed spec fn name(&self) -> Seq<char> {
        self.name@
    }

    /// The expected digest text.
    pub closed spec fn expected(&self) -> Seq<char> {
        self.md5@
    }

    /// The content consumed so far.
    pub closed spec fn consumed(&self) -> Seq<u8> {
        crate::digests::md5_consumed(self.context)
    }

    /// Starts validating the image for `entry`, given what the file's
    /// metadata says: whether it is a regular file, and its length.
    pub fn begin(entry: &RuntimeMetadataEntry, is_file: bool, len: u64) -> (r: Result<ImageValidation, RuntimeRepairError>)
        ensures
            r is Ok <==> is_file && len == entry.size,
            r matches Ok(v) ==> v.name() == entry.name@ && v.expected() == entry.md5@ && v.consumed() == Seq::<u8>::empty(),
            r matches Err(e) ==> e == RuntimeRepairError::Validation(entry.name),
    {
        if !is_file || len != entry.size {
            return Err(RuntimeRepairError::Validation(entry.name.clone()));
        }
        Ok(ImageValidation { name: entry.name.clone(), md5: entry.md5.clone(), context: crate::digests::md5_new() })
    }

    /// The failure of this validation.
    pub fn failure(&self) -> (r: RuntimeRepairError)
        ensures
            r matches RuntimeRepairError::Validation(n) && n@ == self.name(),
    {
        RuntimeRepairError::Validation(self.name.clone())
    }

    /// Checks the first four bytes of the image (none when they could not be
    /// read) and consumes them.
    pub fn check_magic(&mut self, magic: Option<[u8; 4]>) -> (r: Result<(), RuntimeRepairError>)
        ensures
            final(self).name() == old(self).name(),
            final(self).expected() == old(self).expected(),
            r is Ok <==> (magic matches Some(m) && m@ == seq![104u8, 115u8, 113u8, 115u8]),
            r is Ok ==> final(self).consumed() == old(self).consumed() + seq![104u8, 115u8, 113u8, 115u8],
            r matches Err(e) ==> (e matches RuntimeRepairError::Validation(n) && n@ == old(self).name()),
    {
        let m = match magic {
            Some(m) => m,
            None => return Err(self.failure()),
        };
        if !(m[0] == 104 && m[1] == 115 && m[2] == 113 && m[3] == 115) {
            proof {
                if m@ == seq![104u8, 115u8, 113u8, 115u8] {
                    assert(m@[0] == 104);
                }
            }
            return Err(self.failure());
        }
        assert(m@ =~= seq![104u8, 115u8, 113u8, 115u8]);
        crate::digests::md5_consume(&mut self.context, &m);
        Ok(())
    }

    /// Consumes the next part of the image.
    pub fn consume(&mut self, chunk: &[u8])
        ensures
            final(self).name() == old(self).name(),
            final(self).expected() == old(self).expected(),
            final(self).consumed() == old(self).consumed() + chunk@,
    {
        crate::digests::md5_consume(&mut self.context, chunk);
    }

    /// Accepts the image when the MD5 digest of its content, as lower-case
    /// hexadecimal text, is the expected one.
    pub fn finish(self) -> (r: Result<(), RuntimeRepairError>)
        ensures
            r is Ok <==> crate::digests::lower_hex_text(crate::digests::md5_of(self.consumed())) == self.expected(),
            r matches Err(e) ==> (e matches RuntimeRepairError::Validation(n) && n@ == self.name()),
    {
        let digest = crate::digests::md5_finalize(self.context);
        let text = crate::digests::lower_hex(&digest);
        if text_eq(chars_of(text.as_str()).as_slice(), chars_of(self.md5.as_str()).as_slice()) {
            Ok(())
        } else {
            Err(RuntimeRepairError::Validation(self.name))
        }
    }
}

// ---------------------------------------------------------------------------
// Repair requests.


/// Checks what a repair request asks for before its metadata is read: a
/// supported architecture and at least one runtime.
pub fn check_repair_request(arch: &str, names: &Vec<String>) -> (r: Result<(), RuntimeRepairError>)
    ensures
        !supported_arch(arch@) ==> (r matches Err(RuntimeRepairError::UnsupportedArchitecture(a)) && a@ == arch@),
        supported_arch(arch@) && names.len() == 0 ==> (r matches Err(RuntimeRepairError::InvalidName(m)) && m@
            == "at least one Runtime is required"@),
        supported_arch(arch@) && names.len() > 0 ==> r is Ok,
{
    let a = chars_of(arch);
    if !(eq_lit(a.as_slice(), "aarch64") || eq_lit(a.as_slice(), "armhf") || eq_lit(a.as_slice(), "x86_64")) {
        return Err(RuntimeRepairError::UnsupportedArchitecture(arch.to_owned()));
    }
    if names.len() == 0 {
        return Err(RuntimeRepairError::InvalidName("at least one Runtime is required".to_owned()));
    }
    Ok(())
}

/// The entry named `name` for `arch`, if the metadata has one.
pub open spec fn has_entry(es: Seq<RuntimeMetadataEntry>, name: Seq<char>, arch: Seq<char>, i: int) -> bool {
    0 <= i < es.len() && es[i].name@ == name && es[i].arch@ == arch
}

pub open spec fn entry_for(es: Seq<RuntimeMetadataEntry>, name: Seq<char>, arch: Seq<char>) -> Option<RuntimeMetadataEntry> {
    if exists|i: int| #[trigger] has_entry(es, name, arch, i) {
        Some(es[choose|i: int| #[trigger] has_entry(es, name, arch, i)])
    } else {
        None
    }
}

/// Why a requested runtime cannot be selected.
pub enum SelectionFault {
    /// An unsafe or repeated name.
    BadName(Seq<char>),
    /// The metadata has no entry for the name on the architecture.
    Missing(Seq<char>),
    /// The sizes add up beyond `u64`.
    Overflow,
}

/// The selection of the first `n` requested runtimes: their entries and
/// total size, or the first problem.
pub open spec fn selection(es: Seq<RuntimeMetadataEntry>, names: Seq<Seq<char>>, arch: Seq<char>, n: int) -> Result<(Seq<RuntimeMetadataEntry>, u64), SelectionFault>
    decreases n,
{
    if n <= 0 {
        Ok((Seq::empty(), 0))
    } else {
        match selection(es, names, arch, n - 1) {
            Err(e) => Err(e),
            Ok((picked, total)) => {
                let name = names[n - 1];
                if !safe_runtime(name) || (exists|j: int| 0 <= j < n - 1 && #[trigger] names[j] == name) {
                    Err(SelectionFault::BadName(name))
                } else {
                    match entry_for(es, name, arch) {
                        None => Err(SelectionFault::Missing(name)),
                        Some(e) => if total + e.size > u64::MAX {
                            Err(SelectionFault::Overflow)
                        } else {
                            Ok((picked.push(e), (total + e.size) as u64))
                        },
                    }
                }
            },
        }
    }
}

/// The error that reports a selection fault for `arch`.
pub open spec fn fault_error(f: SelectionFault, e: RuntimeRepairError, arch: Seq<char>) -> bool {
    match f {
        SelectionFault::BadName(n) => e matches RuntimeRepairError::InvalidName(m) && m@ == n,
        SelectionFault::Missing(n) => e matches RuntimeRepairError::MissingMetadata { name, arch: a } && name@ == n
            && a@ == arch,
        SelectionFault::Overflow => e matches RuntimeRepairError::InvalidMetadata(m) && m@
            == "Runtime size total overflowed"@,
    }
}

impl RuntimeMetadata {
    /// Selects the requested runtimes for `arch`, in request order, with
    /// their total size.
    pub fn select(&self, names: &Vec<String>, arch: &str) -> (r: Result<(Vec<RuntimeMetadataEntry>, u64), RuntimeRepairError>)
        requires
            self.wf(),
        ensures
            match r {
                Ok((picked, total)) => selection(self.entries_view(), names@.map_values(|s: String| s@), arch@, names.len() as int)
                    == Ok::<(Seq<RuntimeMetadataEntry>, u64), SelectionFault>((picked@, total)),
                Err(e) => selection(self.entries_view(), names@.map_values(|s: String| s@), arch@, names.len() as int) matches Err(f)
                    && fault_error(f, e, arch@),
            },
    {
        let ghost es = self.entries_view();
        let ghost ns = names@.map_values(|s: String| s@);
        let mut picked: Vec<RuntimeMetadataEntry> = Vec::new();
        let mut total: u64 = 0;
        let mut i: usize = 0;
        while i < names.len()
            invariant
                i <= names.len(),
                self.wf(),
                es == self.entries_view(),
                ns == names@.map_values(|s: String| s@),
                selection(es, ns, arch@, i as int) == Ok::<(Seq<RuntimeMetadataEntry>, u64), SelectionFault>((picked@, total)),
            decreases names.len() - i,
        {
            let name = &names[i];
            let n = chars_of(name.as_str());
            assert(ns[i as int] == name@);
            let mut repeated = false;
            let mut j: usize = 0;
            while j < i
                invariant
                    j <= i,
                    i < names.len(),
                    ns == names@.map_values(|s: String| s@),
                    n@ == ns[i as int],
                    repeated == exists|x: int| 0 <= x < j && #[trigger] ns[x] == n@,
                decreases i - j,
            {
                assert(ns[j as int] == names@[j as int]@);
                if text_eq(chars_of(names[j].as_str()).as_slice(), n.as_slice()) {
                    repeated = true;
                }
                j += 1;
            }
            if !safe_runtime_name(n.as_slice()) || repeated {
                proof {
                    lemma_selection_error_stays(es, ns, arch@, i + 1, names.len() as int);
                }
                return Err(RuntimeRepairError::InvalidName(name.clone()));
            }
            match self.get(name.as_str(), arch) {
                None => {
                    assert forall|x: int| !has_entry(es, ns[i as int], arch@, x) by {
                        if has_entry(es, ns[i as int], arch@, x) {
                            assert(es[x].name@ == name@ && es[x].arch@ == arch@);
                        }
                    }
                    assert(entry_for(es, ns[i as int], arch@) is None);
                    proof {
                        lemma_selection_error_stays(es, ns, arch@, i + 1, names.len() as int);
                    }
                    return Err(RuntimeRepairError::MissingMetadata { name: name.clone(), arch: arch.to_owned() });
                },
                Some(entry) => {
                    proof {
                        let k = choose|k: int| 0 <= k < es.len() && es[k] == *entry;
                        assert(es[k].name@ == ns[i as int] && es[k].arch@ == arch@);
                        lemma_entry_for_unique(self, ns[i as int], arch@, k);
                    }
                    if total > u64::MAX - entry.size {
                        proof {
                            lemma_selection_error_stays(es, ns, arch@, i + 1, names.len() as int);
                        }
                        return Err(RuntimeRepairError::InvalidMetadata("Runtime size total overflowed".to_owned()));
                    }
                    total = total + entry.size;
                    picked.push(copy_entry(entry));
                },
            }
            i += 1;
        }
        Ok((picked, total))
    }
}

fn copy_entry(e: &RuntimeMetadataEntry) -> (r: RuntimeMetadataEntry)
    ensures
        r == *e,
{
    RuntimeMetadataEntry {
        name: e.name.clone(),
        arch: e.arch.clone(),
        size: e.size,
        md5: e.md5.clone(),
        url: e.url.clone(),
    }
}

proof fn lemma_entry_for_unique(m: &RuntimeMetadata, name: Seq<char>, arch: Seq<char>, k: int)
    requires
        m.wf(),
        0 <= k < m.entries_view().len(),
        m.entries_view()[k].name@ == name,
        m.entries_view()[k].arch@ == arch,
    ensures
        entry_for(m.entries_view(), name, arch) == Some(m.entries_view()[k]),
{
    let es = m.entries_view();
    assert(has_entry(es, name, arch, k));
    let i = choose|i: int| #[trigger] has_entry(es, name, arch, i);
    assert(es[i].name@ == name);
    if i != k {
        lemma_text_lt_irreflexive(name);
        lemma_text_lt_irreflexive(arch);
        if i < k {
            assert(key_lt(es[i], es[k]));
        } else {
            assert(key_lt(es[k], es[i]));
        }
    }
    assert(es[i] == es[k]);
}

proof fn lemma_selection_error_stays(
    es: Seq<RuntimeMetadataEntry>,
    names: Seq<Seq<char>>,
    arch: Seq<char>,
    n: int,
    m: int,
)
    requires
        0 < n <= m,
        selection(es, names, arch, n) is Err,
    ensures
        selection(es, names, arch, m) == selection(es, names, arch, n),
    decreases m - n,
{
    if m > n {
        lemma_selection_error_stays(es, names, arch, n, m - 1);
    }
}

/// The record of one repair step: the progress frame for the UI, and the
/// line of the progress file (`1`, phase, runtime, index, count, current,
/// total, speed and detail, tab separated). The current count is capped at
/// the total, and the detail is kept on one line.
pub open spec fn progress_line(
    phase: Seq<char>,
    runtime: Seq<char>,
    index: u64,
    count: u64,
    current: u64,
    total: u64,
    speed: u64,
    detail: Seq<char>,
) -> Seq<char> {
    let shown = if current < total { current } else { total };
    "1\t"@ + phase + seq!['\t'] + runtime + seq!['\t'] + decimal_spec(index as nat) + seq!['\t'] + decimal_spec(count as nat)
        + seq!['\t'] + decimal_spec(shown as nat) + seq!['\t'] + decimal_spec(total as nat) + seq!['\t'] + decimal_spec(
        speed as nat,
    ) + seq!['\t'] + crate::launcher::single_line(detail) + seq!['\n']
}

pub fn progress_record(
    phase: &str,
    runtime: &str,
    index: u64,
    count: u64,
    current: u64,
    total: u64,
    speed: u64,
    detail: &str,
) -> (r: (crate::task::TaskProgress, String))
    ensures
        r.0.phase@ == phase@,
        r.0.runtime@ == runtime@,
        r.0.index == index,
        r.0.count == count,
        r.0.current == (if current < total { current } else { total }),
        r.0.total == total,
        r.0.speed == speed,
        r.0.detail@ == crate::launcher::single_line(detail@),
        r.1@ == progress_line(phase@, runtime@, index, count, current, total, speed, detail@),
{
    let clean = crate::launcher::one_line(detail);
    let shown = if current < total { current } else { total };
    let mut line = chars_of("1\t");
    push_all(&mut line, chars_of(phase).as_slice());
    line.push('\t');
    push_all(&mut line, chars_of(runtime).as_slice());
    line.push('\t');
    push_all(&mut line, decimal(index).as_slice());
    line.push('\t');
    push_all(&mut line, decimal(count).as_slice());
    line.push('\t');
    push_all(&mut line, decimal(shown).as_slice());
    line.push('\t');
    push_all(&mut line, decimal(total).as_slice());
    line.push('\t');
    push_all(&mut line, decimal(speed).as_slice());
    line.push('\t');
    push_all(&mut line, chars_of(clean.as_str()).as_slice());
    line.push('\n');
    let frame = crate::task::TaskProgress {
        phase: phase.to_owned(),
        runtime: runtime.to_owned(),
        index,
        count,
        current: shown,
        total,
        speed,
        detail: clean,
    };
    (frame, string_of(line.as_slice()))
}

} // verus!

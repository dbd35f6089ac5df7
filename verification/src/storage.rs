//! Removable-storage detection from the Linux mount table: which mounted
//! block devices are user storage, and where their roots are.
//!
//! Device names are never a whitelist: SD-boot devices, USB readers, NVMe
//! adapters and encrypted volumes all use different names. Pseudo
//! filesystems, system mounts and loop or RAM devices are excluded.
use vstd::prelude::*;

use vstd::utf8::{decode_utf8, encode_utf8, valid_utf8};

use crate::paths::{
    components, file_name, file_name_of, is_absolute, join, joined, rebuilt, split_path,
    strip_prefix, stripped, views, Split,
};
use crate::text::{
    chars_of, contains_lit, contains_seq, eq_lit, is_prefix, push_all, slice, spec_is_ascii_digit,
    spec_is_whitespace, spec_lower, starts_with_lit, string_of, to_ascii_lowercase, Text,
};

verus! {

/// A mounted removable volume and the user-visible roots for it.
#[derive(Debug, Clone, PartialEq, Eq)]
pub struct StorageVolume {
    pub device: String,
    pub mount_point: String,
    /// `mount_point` plus any symlink aliases under `/mnt` that point at it.
    pub roots: Vec<String>,
}

// ---------------------------------------------------------------------------
// Mount table fields.

/// The white-space separated fields of a line (`str::split_whitespace`).
pub open spec fn ws_fields(t: Seq<char>) -> Seq<Seq<char>>
    decreases t.len(),
{
    if t.len() == 0 {
        Seq::empty()
    } else {
        let prev = ws_fields(t.drop_last());
        let c = t.last();
        if spec_is_whitespace(c) {
            prev
        } else if t.len() >= 2 && !spec_is_whitespace(t[t.len() - 2]) {
            prev.update(prev.len() - 1, prev.last().push(c))
        } else {
            prev.push(seq![c])
        }
    }
}

proof fn lemma_ws_fields_nonempty(t: Seq<char>)
    requires
        t.len() > 0,
        !spec_is_whitespace(t.last()),
    ensures
        ws_fields(t).len() > 0,
    decreases t.len(),
{
    if t.len() >= 2 && !spec_is_whitespace(t[t.len() - 2]) {
        lemma_ws_fields_nonempty(t.drop_last());
    }
}

/// Splits a line into its white-space separated fields.
pub fn fields_of(t: &[char]) -> (r: Vec<Text>)
    ensures
        views(r@) == ws_fields(t@),
{
    let mut out: Vec<Text> = Vec::new();
    let mut i: usize = 0;
    assert(t@.subrange(0, 0) =~= Seq::<char>::empty());
    while i < t.len()
        invariant
            i <= t.len(),
            views(out@) == ws_fields(t@.subrange(0, i as int)),
            i > 0 && !spec_is_whitespace(t@[i - 1]) ==> out.len() > 0,
        decreases t.len() - i,
    {
        let c = t[i];
        let ghost q = t@.subrange(0, i + 1);
        assert(q.drop_last() =~= t@.subrange(0, i as int));
        assert(q.last() == c);
        if crate::text::is_whitespace(c) {
        } else if i > 0 && !crate::text::is_whitespace(t[i - 1]) {
            assert(q[q.len() - 2] == t@[i - 1]);
            let last = out.len() - 1;
            let ghost before = views(out@);
            let mut field = out.pop().unwrap();
            field.push(c);
            out.push(field);
            assert(views(out@) =~= before.update(last as int, before.last().push(c)));
        } else {
            if i > 0 {
                assert(q[q.len() - 2] == t@[i - 1]);
            }
            let ghost before = views(out@);
            let mut field: Text = Vec::new();
            field.push(c);
            assert(field@ =~= seq![c]);
            out.push(field);
            assert(views(out@) =~= before.push(seq![c]));
        }
        i += 1;
    }
    assert(t@.subrange(0, t.len() as int) =~= t@);
    out
}

/// An octal digit byte.
pub open spec fn octal_digit(b: u8) -> bool {
    48 <= b && b <= 55
}

/// The mount table's `\ooo` escapes decoded (the value taken modulo 256).
pub open spec fn unescaped(b: Seq<u8>) -> Seq<u8>
    decreases b.len(),
{
    if b.len() == 0 {
        Seq::empty()
    } else if b[0] == 92 && b.len() > 3 && octal_digit(b[1]) && octal_digit(b[2]) && octal_digit(b[3]) {
        seq![(((b[1] - 48) * 64 + (b[2] - 48) * 8 + (b[3] - 48)) % 256) as u8] + unescaped(
            b.subrange(4, b.len() as int),
        )
    } else {
        seq![b[0]] + unescaped(b.drop_first())
    }
}

/// `String::from_utf8(..).ok()`: the text that the bytes encode, when they
/// are valid UTF-8.
#[verifier::external_body]
pub(crate) fn text_from_utf8(bytes: Vec<u8>) -> (r: Option<String>)
    ensures
        r is Some <==> valid_utf8(bytes@),
        r matches Some(s) ==> s@ == decode_utf8(bytes@),
{
    String::from_utf8(bytes).ok()
}

fn unescape(b: &[u8]) -> (r: Vec<u8>)
    ensures
        r@ == unescaped(b@),
{
    let mut out: Vec<u8> = Vec::new();
    let mut i: usize = 0;
    assert(b@.subrange(0, b.len() as int) =~= b@);
    while i < b.len()
        invariant
            i <= b.len(),
            out@ + unescaped(b@.subrange(i as int, b.len() as int)) == unescaped(b@),
        decreases b.len() - i,
    {
        let ghost rest = b@.subrange(i as int, b.len() as int);
        if b[i] == 92 && b.len() - i > 3 && 48 <= b[i + 1] && b[i + 1] <= 55 && 48 <= b[i + 2]
            && b[i + 2] <= 55 && 48 <= b[i + 3] && b[i + 3] <= 55 {
            let value: u32 = ((b[i + 1] - 48) as u32) * 64 + ((b[i + 2] - 48) as u32) * 8 + ((b[i + 3] - 48) as u32);
            let byte = (value % 256) as u8;
            assert(rest.subrange(4, rest.len() as int) =~= b@.subrange(i + 4, b.len() as int));
            assert(byte == (((rest[1] - 48) * 64 + (rest[2] - 48) * 8 + (rest[3] - 48)) % 256) as u8);
            let ghost before = out@;
            out.push(byte);
            assert(out@ =~= before + seq![byte]);
            i += 4;
        } else {
            assert(rest.drop_first() =~= b@.subrange(i + 1, b.len() as int));
            let ghost before = out@;
            out.push(b[i]);
            assert(out@ =~= before + seq![rest[0]]);
            i += 1;
        }
    }
    assert(b@.subrange(b.len() as int, b.len() as int) =~= Seq::<u8>::empty());
    assert(out@ + Seq::<u8>::empty() =~= out@);
    out
}

/// The bytes of a mount field after its escapes are decoded.
pub open spec fn decoded_bytes(value: Seq<char>) -> Seq<u8> {
    unescaped(encode_utf8(value))
}

/// Decodes the `\ooo` escapes of a mount table field; `None` when the result
/// is not UTF-8.
pub fn decode_mount_field(value: &str) -> (r: Option<String>)
    ensures
        r is Some <==> valid_utf8(decoded_bytes(value@)),
        r matches Some(s) ==> s@ == decode_utf8(decoded_bytes(value@)),
{
    let bytes = value.as_bytes();
    let decoded = unescape(bytes);
    text_from_utf8(decoded)
}

/// The device and mount point of a mount table line, for a device under
/// `/dev/`; `None` for pseudo filesystems and malformed lines.
pub open spec fn mount_entry(line: Seq<char>) -> Option<(Seq<char>, Seq<char>)> {
    let f = ws_fields(line);
    if f.len() >= 2 && is_prefix("/dev/"@, f[0]) && valid_utf8(decoded_bytes(f[0])) && valid_utf8(
        decoded_bytes(f[1]),
    ) {
        Some((decode_utf8(decoded_bytes(f[0])), decode_utf8(decoded_bytes(f[1]))))
    } else {
        None
    }
}

/// Parses one mount table line.
pub fn parse_mount_line(line: &str) -> (r: Option<(String, String)>)
    ensures
        r matches Some(p) ==> mount_entry(line@) == Some((p.0@, p.1@)),
        r is None ==> mount_entry(line@) is None,
{
    let t = chars_of(line);
    let fields = fields_of(t.as_slice());
    if fields.len() < 2 {
        return None;
    }
    assert(views(fields@)[0] == fields[0]@);
    assert(views(fields@)[1] == fields[1]@);
    if !starts_with_lit(fields[0].as_slice(), "/dev/") {
        return None;
    }
    let device = match decode_mount_field(string_of(fields[0].as_slice()).as_str()) {
        Some(d) => d,
        None => return None,
    };
    let mount_point = match decode_mount_field(string_of(fields[1].as_slice()).as_str()) {
        Some(m) => m,
        None => return None,
    };
    Some((device, mount_point))
}

// ---------------------------------------------------------------------------
// Which mounts are user storage.

/// Two paths with the same root and components (`Path` equality).
pub open spec fn same_path(a: Seq<char>, b: Seq<char>) -> bool {
    is_absolute(a) == is_absolute(b) && components(a) == components(b)
}

/// `Path::starts_with`.
pub open spec fn under(p: Seq<char>, root: Seq<char>) -> bool {
    stripped(p, root) is Some
}

/// `path` is the system root `root` or, for a root other than `/`, below it.
pub open spec fn at_system_root(path: Seq<char>, root: Seq<char>) -> bool {
    same_path(path, root) || (root != "/"@ && under(path, root))
}

/// A system mount: one of the system roots or below one, or `/run` outside
/// `/run/media`.
pub open spec fn system_mount(path: Seq<char>) -> bool {
    ||| at_system_root(path, "/"@)
    ||| at_system_root(path, "/boot"@)
    ||| at_system_root(path, "/boot/efi"@)
    ||| at_system_root(path, "/dev"@)
    ||| at_system_root(path, "/etc"@)
    ||| at_system_root(path, "/proc"@)
    ||| at_system_root(path, "/sys"@)
    ||| at_system_root(path, "/system"@)
    ||| at_system_root(path, "/usr"@)
    ||| at_system_root(path, "/var"@)
    ||| at_system_root(path, "/vendor"@)
    ||| same_path(path, "/run"@)
    ||| (under(path, "/run"@) && !under(path, "/run/media"@))
}

/// `Path` equality.
pub fn path_eq(a: &[char], b: &[char]) -> (r: bool)
    ensures
        r == same_path(a@, b@),
{
    let x = split_path(a);
    let y = split_path(b);
    if x.absolute != y.absolute || x.parts.len() != y.parts.len() {
        assert(views(x.parts@).len() == x.parts.len());
        assert(views(y.parts@).len() == y.parts.len());
        return false;
    }
    let mut i: usize = 0;
    while i < x.parts.len()
        invariant
            i <= x.parts.len(),
            x.parts.len() == y.parts.len(),
            views(x.parts@) == components(a@),
            views(y.parts@) == components(b@),
            forall|j: int| 0 <= j < i ==> components(a@)[j] == components(b@)[j],
        decreases x.parts.len() - i,
    {
        assert(components(a@)[i as int] == x.parts[i as int]@);
        assert(components(b@)[i as int] == y.parts[i as int]@);
        if !crate::text::text_eq(x.parts[i].as_slice(), y.parts[i].as_slice()) {
            return false;
        }
        i += 1;
    }
    assert(components(a@) =~= components(b@));
    true
}

fn at_root(path: &[char], root: &str) -> (r: bool)
    ensures
        r == at_system_root(path@, root@),
{
    let rt = chars_of(root);
    path_eq(path, rt.as_slice()) || (!eq_lit(rt.as_slice(), "/") && crate::paths::path_starts_with(
        path,
        rt.as_slice(),
    ))
}

/// Is the mount point a system location?
pub fn is_system_mount(path: &str) -> (r: bool)
    ensures
        r == system_mount(path@),
{
    let p = chars_of(path);
    let s = p.as_slice();
    at_root(s, "/") || at_root(s, "/boot") || at_root(s, "/boot/efi") || at_root(s, "/dev")
        || at_root(s, "/etc") || at_root(s, "/proc") || at_root(s, "/sys") || at_root(s, "/system")
        || at_root(s, "/usr") || at_root(s, "/var") || at_root(s, "/vendor") || path_eq(
        s,
        chars_of("/run").as_slice(),
    ) || (crate::paths::path_starts_with(s, chars_of("/run").as_slice())
        && !crate::paths::path_starts_with(s, chars_of("/run/media").as_slice()))
}

/// A loop, RAM or MTD block device, which never holds user storage.
pub open spec fn unsupported_device(device: Seq<char>) -> bool {
    match file_name_of(device) {
        Some(n) => is_prefix("loop"@, n) || is_prefix("zram"@, n) || is_prefix("ram"@, n) || is_prefix(
            "mtdblock"@,
            n,
        ),
        None => false,
    }
}

pub fn unsupported_block_device(device: &str) -> (r: bool)
    ensures
        r == unsupported_device(device@),
{
    let d = chars_of(device);
    match file_name(d.as_slice()) {
        Some(n) => starts_with_lit(n.as_slice(), "loop") || starts_with_lit(n.as_slice(), "zram")
            || starts_with_lit(n.as_slice(), "ram") || starts_with_lit(n.as_slice(), "mtdblock"),
        None => false,
    }
}

/// A standard Linux user-media namespace, by its lower-cased text.
pub open spec fn user_media(path: Seq<char>) -> bool {
    let l = path.map_values(|c: char| spec_lower(c));
    ||| l == "/roms"@
    ||| is_prefix("/roms/"@, l)
    ||| l == "/roms2"@
    ||| is_prefix("/roms2/"@, l)
    ||| contains_seq(l, "sdcard"@)
    ||| is_prefix("/media/"@, l)
    ||| is_prefix("/run/media/"@, l)
    ||| l == "/storage"@
    ||| is_prefix("/storage/"@, l)
    ||| l == "/mnt/mmc"@
    ||| is_prefix("/mnt/mmc/"@, l)
}

/// `path` lower-cased, character by character.
pub open spec fn lowered(path: Seq<char>) -> Seq<char> {
    path.map_values(|c: char| spec_lower(c))
}

/// `path`, lower-cased, is `root` or lies below it.
pub open spec fn at_or_below(path: Seq<char>, root: Seq<char>) -> bool {
    lowered(path) == root || is_prefix(root + "/"@, lowered(path))
}

/// The user-media namespaces: `/roms`, `/roms2`, `/storage` and `/mnt/mmc`
/// with everything below them, everything below `/media` and `/run/media`,
/// and any path that mentions `sdcard`, all regardless of letter case.
pub proof fn lemma_user_media_namespaces(path: Seq<char>)
    ensures
        at_or_below(path, "/roms"@) ==> user_media(path),
        at_or_below(path, "/roms2"@) ==> user_media(path),
        at_or_below(path, "/storage"@) ==> user_media(path),
        at_or_below(path, "/mnt/mmc"@) ==> user_media(path),
        is_prefix("/media/"@, lowered(path)) ==> user_media(path),
        is_prefix("/run/media/"@, lowered(path)) ==> user_media(path),
        contains_seq(lowered(path), "sdcard"@) ==> user_media(path),
{
    reveal_strlit("/roms");
    reveal_strlit("/roms/");
    reveal_strlit("/roms2");
    reveal_strlit("/roms2/");
    reveal_strlit("/storage");
    reveal_strlit("/storage/");
    reveal_strlit("/mnt/mmc");
    reveal_strlit("/mnt/mmc/");
    reveal_strlit("/");
    assert("/roms"@ + "/"@ =~= "/roms/"@);
    assert("/roms2"@ + "/"@ =~= "/roms2/"@);
    assert("/storage"@ + "/"@ =~= "/storage/"@);
    assert("/mnt/mmc"@ + "/"@ =~= "/mnt/mmc/"@);
}

pub fn user_media_namespace(path: &str) -> (r: bool)
    ensures
        r == user_media(path@),
        at_or_below(path@, "/roms"@) || at_or_below(path@, "/roms2"@) || at_or_below(path@, "/storage"@)
            || at_or_below(path@, "/mnt/mmc"@) ==> r,
        is_prefix("/media/"@, lowered(path@)) || is_prefix("/run/media/"@, lowered(path@)) ==> r,
        contains_seq(lowered(path@), "sdcard"@) ==> r,
{
    proof {
        lemma_user_media_namespaces(path@);
    }
    let l = to_ascii_lowercase(chars_of(path).as_slice());
    let s = l.as_slice();
    eq_lit(s, "/roms") || starts_with_lit(s, "/roms/") || eq_lit(s, "/roms2") || starts_with_lit(
        s,
        "/roms2/",
    ) || contains_lit(s, "sdcard") || starts_with_lit(s, "/media/") || starts_with_lit(
        s,
        "/run/media/",
    ) || eq_lit(s, "/storage") || starts_with_lit(s, "/storage/") || eq_lit(s, "/mnt/mmc")
        || starts_with_lit(s, "/mnt/mmc/")
}

/// Firmware-internal mounts that look like user storage but are not.
pub open spec fn firmware_internal(path: Seq<char>) -> bool {
    let l = path.map_values(|c: char| spec_lower(c));
    l == "/mnt/udisk"@ || l == "/secord"@
}

pub fn known_firmware_internal_mount(path: &str) -> (r: bool)
    ensures
        r == firmware_internal(path@),
        lowered(path@) == "/mnt/udisk"@ || lowered(path@) == "/secord"@ ==> r,
{
    let l = to_ascii_lowercase(chars_of(path).as_slice());
    eq_lit(l.as_slice(), "/mnt/udisk") || eq_lit(l.as_slice(), "/secord")
}

/// A mount point inside the probed namespace: the mount point's components
/// below `/` joined onto the probe root.
pub open spec fn rooted(probe_root: Option<Seq<char>>, mount_point: Seq<char>) -> Seq<char> {
    match probe_root {
        None => mount_point,
        Some(root) => joined(
            root,
            match stripped(mount_point, "/"@) {
                Some(rest) => rebuilt(false, rest),
                None => mount_point,
            },
        ),
    }
}

pub fn rooted_mount_point(probe_root: Option<&str>, mount_point: &str) -> (r: String)
    ensures
        r@ == rooted(
            match probe_root {
                Some(p) => Some(p@),
                None => None,
            },
            mount_point@,
        ),
{
    let m = chars_of(mount_point);
    match probe_root {
        None => mount_point.to_owned(),
        Some(root) => {
            let rel: Text = match strip_prefix(m.as_slice(), chars_of("/").as_slice()) {
                Some(rest) => {
                    let s = Split { absolute: false, parts: rest };
                    crate::paths::join_split(&s)
                },
                None => m,
            };
            string_of(join(chars_of(root).as_slice(), rel.as_slice()).as_slice())
        },
    }
}

/// A mounted block device that may be user storage: not a system or
/// firmware-internal mount, and not a loop, RAM or MTD device.
pub open spec fn candidate_mount(line: Seq<char>) -> Option<(Seq<char>, Seq<char>)> {
    match mount_entry(line) {
        Some((device, mount_point)) => if system_mount(mount_point) || firmware_internal(mount_point)
            || unsupported_device(device) {
            None
        } else {
            Some((device, mount_point))
        },
        None => None,
    }
}

/// The device and mount point of a mount table line that may be user storage.
pub fn storage_mount(line: &str) -> (r: Option<(String, String)>)
    ensures
        r matches Some(p) ==> candidate_mount(line@) == Some((p.0@, p.1@)),
        r is None ==> candidate_mount(line@) is None,
{
    match parse_mount_line(line) {
        Some((device, mount_point)) => {
            if is_system_mount(mount_point.as_str()) || known_firmware_internal_mount(mount_point.as_str())
                || unsupported_block_device(device.as_str()) {
                None
            } else {
                Some((device, mount_point))
            }
        },
        None => None,
    }
}


/// `t` without its trailing ASCII digits.
pub open spec fn without_trailing_digits(t: Seq<char>) -> Seq<char>
    decreases t.len(),
{
    if t.len() > 0 && spec_is_ascii_digit(t.last()) {
        without_trailing_digits(t.drop_last())
    } else {
        t
    }
}

/// The disk of a partition name: the part before a final `p<digits>`, or
/// the name without trailing digits.
pub open spec fn disk_of(name: Seq<char>) -> Option<Seq<char>> {
    let suffix = crate::text::after_last(name, 'p');
    if name.contains('p') && crate::text::all_digits(suffix) {
        Some(crate::text::before_last(name, 'p'))
    } else {
        let disk = without_trailing_digits(name);
        if disk != name && disk.len() > 0 {
            Some(disk)
        } else {
            None
        }
    }
}

/// The names under `/sys/class/block` whose `removable` flag tells whether
/// the device is removable: the device and, for a partition, its disk.
pub open spec fn removable_names(device: Seq<char>) -> Seq<Seq<char>> {
    match file_name_of(device) {
        None => Seq::empty(),
        Some(name) => match disk_of(name) {
            Some(disk) => seq![name, disk],
            None => seq![name],
        },
    }
}

fn all_ascii_digits(t: &[char]) -> (r: bool)
    ensures
        r == crate::text::all_digits(t@),
{
    if t.len() == 0 {
        return false;
    }
    let mut i: usize = 0;
    while i < t.len()
        invariant
            i <= t.len(),
            forall|j: int| 0 <= j < i ==> spec_is_ascii_digit(#[trigger] t@[j]),
        decreases t.len() - i,
    {
        if !crate::text::is_ascii_digit(t[i]) {
            return false;
        }
        i += 1;
    }
    true
}

pub fn removable_candidates(device: &str) -> (r: Vec<String>)
    ensures
        r@.map_values(|s: String| s@) == removable_names(device@),
{
    let d = chars_of(device);
    let name = match file_name(d.as_slice()) {
        Some(n) => n,
        None => {
            let out: Vec<String> = Vec::new();
            assert(out@.map_values(|s: String| s@) =~= Seq::<Seq<char>>::empty());
            return out;
        },
    };
    let suffix = crate::text::after_last_of(name.as_slice(), 'p');
    let has_p = crate::text::has_char(name.as_slice(), 'p');
    let mut out: Vec<String> = Vec::new();
    out.push(string_of(name.as_slice()));
    if has_p && all_ascii_digits(suffix.as_slice()) {
        let disk = crate::text::before_last_of(name.as_slice(), 'p');
        out.push(string_of(disk.as_slice()));
        assert(out@.map_values(|s: String| s@) =~= seq![name@, disk@]);
    } else {
        let mut end = name.len();
        assert(name@.subrange(0, end as int) =~= name@);
        while end > 0 && crate::text::is_ascii_digit(name[end - 1])
            invariant
                end <= name.len(),
                without_trailing_digits(name@) == without_trailing_digits(name@.subrange(0, end as int)),
            decreases end,
        {
            assert(name@.subrange(0, end as int).drop_last() =~= name@.subrange(0, end - 1));
            end -= 1;
        }
        let disk = slice(name.as_slice(), 0, end);
        assert(without_trailing_digits(name@) == disk@);
        if end != name.len() && end > 0 {
            out.push(string_of(disk.as_slice()));
            assert(disk@ != name@);
            assert(out@.map_values(|s: String| s@) =~= seq![name@, disk@]);
        } else {
            assert(end == name.len() ==> disk@ =~= name@);
            assert(out@.map_values(|s: String| s@) =~= seq![name@]);
        }
    }
    out
}

} // verus!

//! The LAN administration server's request handling: the request head
//! parser, upload file names and secret comparison.
use vstd::prelude::*;

use vstd::utf8::{decode_utf8, encode_utf8, valid_utf8};

use crate::text::{
    after_last, after_last_of, chars_of, is_suffix, replace_char, replace_chars, slice,
    spec_is_ascii_alphanumeric, spec_lower, string_of, to_ascii_lowercase, trim, trimmed, Text,
};

verus! {

/// Where the server listens and the pairing code shown on the device.
#[derive(Clone, Debug, PartialEq, Eq)]
pub struct WebEndpoint {
    pub port: u16,
    pub code: String,
}

/// The value of a hexadecimal digit byte.
pub open spec fn hex_digit_value(b: u8) -> Option<u8> {
    if 48 <= b && b <= 57 {
        Some((b - 48) as u8)
    } else if 97 <= b && b <= 102 {
        Some((b - 97 + 10) as u8)
    } else if 65 <= b && b <= 70 {
        Some((b - 65 + 10) as u8)
    } else {
        None
    }
}

pub fn hex_value(byte: u8) -> (r: Option<u8>)
    ensures
        r == hex_digit_value(byte),
{
    if 48 <= byte && byte <= 57 {
        Some(byte - 48)
    } else if 97 <= byte && byte <= 102 {
        Some(byte - 97 + 10)
    } else if 65 <= byte && byte <= 70 {
        Some(byte - 65 + 10)
    } else {
        None
    }
}

/// `%XX` escapes decoded to the byte they name; other bytes kept.
pub open spec fn percent_decoded(b: Seq<u8>) -> Seq<u8>
    decreases b.len(),
{
    if b.len() == 0 {
        Seq::empty()
    } else if b[0] == 37 && b.len() > 2 && hex_digit_value(b[1]) is Some && hex_digit_value(b[2]) is Some {
        seq![(hex_digit_value(b[1])->0 * 16 + hex_digit_value(b[2])->0) as u8] + percent_decoded(
            b.subrange(3, b.len() as int),
        )
    } else {
        seq![b[0]] + percent_decoded(b.drop_first())
    }
}

/// The text of `String::from_utf8_lossy`: invalid sequences become U+FFFD.
pub uninterp spec fn utf8_lossy(bytes: Seq<u8>) -> Seq<char>;

/// `String::from_utf8_lossy(..).into_owned()`. Valid UTF-8 is kept as it
/// is (as its documentation says); the replacement of invalid sequences is
/// named, not stated.
#[verifier::external_body]
fn lossy_text(bytes: &[u8]) -> (r: String)
    ensures
        r@ == utf8_lossy(bytes@),
        valid_utf8(bytes@) ==> r@ == decode_utf8(bytes@),
{
    String::from_utf8_lossy(bytes).into_owned()
}

fn percent_bytes(b: &[u8]) -> (r: Vec<u8>)
    ensures
        r@ == percent_decoded(b@),
{
    let mut out: Vec<u8> = Vec::new();
    let mut i: usize = 0;
    assert(b@.subrange(0, b.len() as int) =~= b@);
    while i < b.len()
        invariant
            i <= b.len(),
            out@ + percent_decoded(b@.subrange(i as int, b.len() as int)) == percent_decoded(b@),
        decreases b.len() - i,
    {
        let ghost rest = b@.subrange(i as int, b.len() as int);
        if b[i] == 37 && b.len() - i > 2 {
            let high = hex_value(b[i + 1]);
            let low = hex_value(b[i + 2]);
            if let (Some(h), Some(l)) = (high, low) {
                let value: u8 = h * 16 + l;
                assert(rest.subrange(3, rest.len() as int) =~= b@.subrange(i + 3, b.len() as int));
                let ghost before = out@;
                out.push(value);
                assert(out@ =~= before + seq![value]);
                i += 3;
                continue;
            }
        }
        assert(rest.drop_first() =~= b@.subrange(i + 1, b.len() as int));
        let ghost before = out@;
        out.push(b[i]);
        assert(out@ =~= before + seq![rest[0]]);
        i += 1;
    }
    assert(b@.subrange(b.len() as int, b.len() as int) =~= Seq::<u8>::empty());
    assert(out@ + Seq::<u8>::empty() =~= out@);
    out
}

/// Decodes the percent escapes of a browser-encoded header value.
pub fn percent_decode(input: &str) -> (r: String)
    ensures
        r@ == utf8_lossy(percent_decoded(encode_utf8(input@))),
        valid_utf8(percent_decoded(encode_utf8(input@))) ==> r@ == decode_utf8(percent_decoded(encode_utf8(input@))),
{
    let bytes = input.as_bytes();
    let decoded = percent_bytes(bytes);
    lossy_text(decoded.as_slice())
}

pub open spec fn upload_char(c: char) -> bool {
    spec_is_ascii_alphanumeric(c) || c == '.' || c == '-' || c == '_'
}

/// The last component of an uploaded file name (after any `/` or `\`), trimmed.
pub open spec fn upload_base(value: Seq<char>) -> Seq<char> {
    trimmed(after_last(replace_char(value, '\\', '/'), '/'))
}

/// The stored name of an upload: the safe characters of its base name, at
/// most 96 of them, or `bundle.zip` when nothing but the extension is left.
pub open spec fn upload_name(value: Seq<char>) -> Seq<char> {
    let f = upload_base(value).filter(|c: char| upload_char(c));
    let safe = if f.len() > 96 { f.subrange(0, 96) } else { f };
    if safe.len() == 0 || safe == ".zip"@ {
        "bundle.zip"@
    } else {
        safe
    }
}

/// Accepts a `.zip` upload and gives the name it is stored under.
pub fn safe_upload_name(value: &str) -> (r: Result<String, String>)
    ensures
        r is Ok <==> is_suffix(".zip"@, upload_base(value@).map_values(|c: char| spec_lower(c))),
        r matches Ok(name) ==> name@ == upload_name(value@),
        r matches Err(e) ==> e@ == "只支持 .zip 安装包"@,
{
    let v = chars_of(value);
    let base = trim(after_last_of(replace_chars(v.as_slice(), '\\', '/').as_slice(), '/').as_slice());
    let lower = to_ascii_lowercase(base.as_slice());
    if !crate::text::ends_with_lit(lower.as_slice(), ".zip") {
        return Err("只支持 .zip 安装包".to_owned());
    }
    let mut safe: Vec<char> = Vec::new();
    let mut i: usize = 0;
    while i < base.len()
        invariant
            i <= base.len(),
            safe@ == {
                let f = base@.subrange(0, i as int).filter(|c: char| upload_char(c));
                if f.len() > 96 { f.subrange(0, 96) } else { f }
            },
        decreases base.len() - i,
    {
        let c = base[i];
        proof {
            base@.subrange(0, i as int).lemma_filter_push(c, |c: char| upload_char(c));
            assert(base@.subrange(0, i + 1) =~= base@.subrange(0, i as int).push(c));
        }
        if (crate::text::is_ascii_alphanumeric(c) || c == '.' || c == '-' || c == '_') && safe.len() < 96 {
            safe.push(c);
        }
        proof {
            let f0 = base@.subrange(0, i as int).filter(|c: char| upload_char(c));
            let f1 = base@.subrange(0, i + 1).filter(|c: char| upload_char(c));
            if upload_char(c) {
                assert(f1 == f0.push(c));
                if f0.len() >= 96 {
                    assert(f1.subrange(0, 96) =~= f0.subrange(0, 96));
                } else if f1.len() > 96 {
                    assert(f1.subrange(0, 96) =~= f1);
                }
            }
        }
        i += 1;
    }
    assert(base@.subrange(0, base.len() as int) =~= base@);
    let empty_or_ext = safe.len() == 0 || crate::text::eq_lit(safe.as_slice(), ".zip");
    if empty_or_ext {
        Ok("bundle.zip".to_owned())
    } else {
        Ok(string_of(safe.as_slice()))
    }
}

/// Compares two secrets in time that depends only on their length.
pub fn constant_time_eq(left: &[u8], right: &[u8]) -> (r: bool)
    ensures
        r == (left@ == right@),
{
    if left.len() != right.len() {
        return false;
    }
    let mut difference: u8 = 0;
    let mut i: usize = 0;
    while i < left.len()
        invariant
            i <= left.len(),
            left.len() == right.len(),
            (difference == 0) == (forall|j: int| 0 <= j < i ==> left@[j] == right@[j]),
        decreases left.len() - i,
    {
        let a = left[i];
        let b = right[i];
        let d = difference;
        assert((d | (a ^ b)) == 0 <==> (d == 0 && a == b)) by (bit_vector);
        difference = difference | (a ^ b);
        i += 1;
    }
    if difference == 0 {
        assert(left@ =~= right@);
        true
    } else {
        false
    }
}


/// Largest request head, in bytes.
pub const MAX_HEADER_BYTES: usize = 32768;

/// The parts of a request head that the server acts on.
#[derive(Debug)]
pub struct RequestHead {
    pub method: String,
    pub path: String,
    pub content_length: Option<u64>,
    pub filename: String,
    pub token: String,
    pub replace_existing: bool,
}

/// Content length, file name, token and replace flag, as headers set them.
pub type HeadFields = (Option<u64>, Seq<char>, Seq<char>, bool);

/// The end of the line that starts at `pos`: just after its `\n`, or the end
/// of the input.
pub open spec fn line_end(b: Seq<u8>, pos: int) -> int
    decreases b.len() - pos,
{
    if pos >= b.len() {
        b.len() as int
    } else if b[pos] == 10 {
        pos + 1
    } else {
        line_end(b, pos + 1)
    }
}

pub proof fn lemma_line_end_bounds(b: Seq<u8>, pos: int)
    requires
        0 <= pos <= b.len(),
    ensures
        pos <= line_end(b, pos) <= b.len(),
    decreases b.len() - pos,
{
    if pos < b.len() && b[pos] != 10 {
        lemma_line_end_bounds(b, pos + 1);
    }
}

/// One line read with at most `limit` bytes.
pub open spec fn read_line(b: Seq<u8>, pos: int, limit: int) -> Result<Seq<char>, Seq<char>> {
    let bytes = b.subrange(pos, line_end(b, pos));
    if bytes.len() > limit {
        Err("HTTP headers are too large"@)
    } else if !valid_utf8(bytes) {
        Err("HTTP headers are not valid UTF-8"@)
    } else {
        Ok(decode_utf8(bytes))
    }
}

/// `t` without trailing `\r` and `\n`.
pub open spec fn without_line_break(t: Seq<char>) -> Seq<char>
    decreases t.len(),
{
    if t.len() > 0 && (t.last() == '\r' || t.last() == '\n') {
        without_line_break(t.drop_last())
    } else {
        t
    }
}

pub open spec fn lower_text(t: Seq<char>) -> Seq<char> {
    t.map_values(|c: char| spec_lower(c))
}

/// The effect of one header line: `Ok((true, ..))` at the blank line that
/// ends the head, `Ok((false, ..))` to go on, `Err` for a rejected header.
pub open spec fn header_step(t: Seq<char>, st: HeadFields) -> Result<(bool, HeadFields), Seq<char>> {
    let line = without_line_break(t);
    if line.len() == 0 {
        Ok((true, st))
    } else if !line.contains(':') {
        Err("invalid HTTP header"@)
    } else {
        let k = crate::text::index_first(line, ':');
        let name = lower_text(trimmed(line.subrange(0, k)));
        let value = trimmed(line.subrange(k + 1, line.len() as int));
        if name == "content-length"@ {
            match crate::text::parsed_u64(value) {
                Some(v) => Ok((false, (Some(v), st.1, st.2, st.3))),
                None => Err("invalid Content-Length"@),
            }
        } else if name == "transfer-encoding"@ && lower_text(value) != "identity"@ {
            Err("chunked uploads are not supported"@)
        } else if name == "x-filename"@ {
            Ok((false, (st.0, value, st.2, st.3)))
        } else if name == "x-appmanager-token"@ {
            Ok((false, (st.0, st.1, value, st.3)))
        } else if name == "x-appmanager-replace"@ {
            if value == "1"@ {
                Ok((false, (st.0, st.1, st.2, true)))
            } else if value == "0"@ || value.len() == 0 {
                Ok((false, (st.0, st.1, st.2, false)))
            } else {
                Err("invalid X-AppManager-Replace header"@)
            }
        } else {
            Ok((false, st))
        }
    }
}

/// The header lines from `pos` on, with `used` bytes of the head read so far.
pub open spec fn header_lines(b: Seq<u8>, pos: int, used: int, st: HeadFields) -> Result<HeadFields, Seq<char>>
    decreases b.len() - pos,
{
    let remaining = if used >= MAX_HEADER_BYTES { 0 } else { MAX_HEADER_BYTES - used };
    match read_line(b, pos, remaining) {
        Err(e) => Err(e),
        Ok(t) => {
            let n = line_end(b, pos) - pos;
            if n <= 0 || pos < 0 || pos >= b.len() {
                Err("incomplete HTTP headers"@)
            } else if used + n > MAX_HEADER_BYTES {
                Err("HTTP headers are too large"@)
            } else {
                match header_step(t, st) {
                    Err(e) => Err(e),
                    Ok((true, fields)) => Ok(fields),
                    Ok((false, fields)) => {
                        proof {
                            lemma_line_end_bounds(b, pos);
                        }
                        header_lines(b, pos + n, used + n, fields)
                    },
                }
            }
        },
    }
}

/// A request head as values: method, path and header fields.
pub type HeadView = (Seq<char>, Seq<char>, HeadFields);

/// What a request head is, or why it is rejected.
pub open spec fn parsed_head(b: Seq<u8>) -> Result<HeadView, Seq<char>> {
    match read_line(b, 0, MAX_HEADER_BYTES as int) {
        Err(e) => Err(e),
        Ok(t) => {
            let n = line_end(b, 0);
            if n == 0 {
                Err("empty request"@)
            } else {
                let parts = crate::storage::ws_fields(t);
                let method = (if parts.len() > 0 { parts[0] } else { Seq::empty() }).map_values(|c: char| crate::text::spec_upper(c));
                let target = if parts.len() > 1 { parts[1] } else { Seq::empty() };
                let version = if parts.len() > 2 { parts[2] } else { Seq::empty() };
                if !(method == "GET"@ || method == "POST"@) || !crate::text::is_prefix("HTTP/1."@, version) {
                    Err("unsupported HTTP request"@)
                } else {
                    let path = target.subrange(0, crate::text::index_first(target, '?'));
                    if !(path.len() > 0 && path[0] == '/') || path.contains('\r') || path.contains('\n') || path.contains('\0') {
                        Err("invalid request path"@)
                    } else {
                        match header_lines(b, n, n, (None, Seq::empty(), Seq::empty(), false)) {
                            Err(e) => Err(e),
                            Ok(fields) => Ok((method, path, fields)),
                        }
                    }
                }
            }
        },
    }
}

fn line_end_of(b: &[u8], pos: usize) -> (r: usize)
    requires
        pos <= b.len(),
    ensures
        r == line_end(b@, pos as int),
        pos <= r <= b.len(),
{
    let mut i = pos;
    while i < b.len() && b[i] != 10
        invariant
            pos <= i <= b.len(),
            line_end(b@, pos as int) == line_end(b@, i as int),
        decreases b.len() - i,
    {
        i += 1;
    }
    if i < b.len() {
        i + 1
    } else {
        i
    }
}

fn bytes_between(b: &[u8], from: usize, to: usize) -> (r: Vec<u8>)
    requires
        from <= to <= b.len(),
    ensures
        r@ == b@.subrange(from as int, to as int),
{
    let mut out: Vec<u8> = Vec::new();
    let mut i = from;
    while i < to
        invariant
            from <= i <= to <= b.len(),
            out@ == b@.subrange(from as int, i as int),
        decreases to - i,
    {
        out.push(b[i]);
        i += 1;
        assert(out@ =~= b@.subrange(from as int, i as int));
    }
    out
}

/// Reads one line of at most `limit` bytes.
fn read_limited_line(b: &[u8], pos: usize, limit: usize) -> (r: Result<(String, usize), String>)
    requires
        pos <= b.len(),
    ensures
        r matches Ok((t, end)) ==> read_line(b@, pos as int, limit as int) == Ok::<Seq<char>, Seq<char>>(t@) && end == line_end(b@, pos as int) && pos <= end <= b.len(),
        r matches Err(e) ==> read_line(b@, pos as int, limit as int) == Err::<Seq<char>, Seq<char>>(e@),
{
    let end = line_end_of(b, pos);
    if end - pos > limit {
        return Err("HTTP headers are too large".to_owned());
    }
    let bytes = bytes_between(b, pos, end);
    match crate::storage::text_from_utf8(bytes) {
        Some(t) => Ok((t, end)),
        None => Err("HTTP headers are not valid UTF-8".to_owned()),
    }
}

fn strip_line_break(t: &[char]) -> (r: Text)
    ensures
        r@ == without_line_break(t@),
{
    let mut end = t.len();
    assert(t@.subrange(0, end as int) =~= t@);
    while end > 0 && (t[end - 1] == '\r' || t[end - 1] == '\n')
        invariant
            end <= t.len(),
            without_line_break(t@) == without_line_break(t@.subrange(0, end as int)),
        decreases end,
    {
        assert(t@.subrange(0, end as int).drop_last() =~= t@.subrange(0, end - 1));
        end -= 1;
    }
    slice(t, 0, end)
}

/// Applies one header line.
fn apply_header(t: &str, st: (Option<u64>, String, String, bool)) -> (r: Result<(bool, (Option<u64>, String, String, bool)), String>)
    ensures
        r matches Ok((done, f)) ==> header_step(t@, (st.0, st.1@, st.2@, st.3)) == Ok::<(bool, HeadFields), Seq<char>>((done, (f.0, f.1@, f.2@, f.3))),
        r matches Err(e) ==> header_step(t@, (st.0, st.1@, st.2@, st.3)) == Err::<(bool, HeadFields), Seq<char>>(e@),
{
    let line = strip_line_break(chars_of(t).as_slice());
    if line.len() == 0 {
        return Ok((true, st));
    }
    let k = crate::text::index_of_first(line.as_slice(), ':');
    if k == line.len() {
        return Err("invalid HTTP header".to_owned());
    }
    let name = to_ascii_lowercase(trim(slice(line.as_slice(), 0, k).as_slice()).as_slice());
    let value = trim(slice(line.as_slice(), k + 1, line.len()).as_slice());
    let (length, filename, token, replace) = st;
    if crate::text::eq_lit(name.as_slice(), "content-length") {
        match crate::text::parse_u64(value.as_slice()) {
            Some(v) => Ok((false, (Some(v), filename, token, replace))),
            None => Err("invalid Content-Length".to_owned()),
        }
    } else if crate::text::eq_lit(name.as_slice(), "transfer-encoding") && !crate::text::eq_lit(
        to_ascii_lowercase(value.as_slice()).as_slice(),
        "identity",
    ) {
        Err("chunked uploads are not supported".to_owned())
    } else if crate::text::eq_lit(name.as_slice(), "x-filename") {
        Ok((false, (length, string_of(value.as_slice()), token, replace)))
    } else if crate::text::eq_lit(name.as_slice(), "x-appmanager-token") {
        Ok((false, (length, filename, string_of(value.as_slice()), replace)))
    } else if crate::text::eq_lit(name.as_slice(), "x-appmanager-replace") {
        if crate::text::eq_lit(value.as_slice(), "1") {
            Ok((false, (length, filename, token, true)))
        } else if crate::text::eq_lit(value.as_slice(), "0") || value.len() == 0 {
            Ok((false, (length, filename, token, false)))
        } else {
            Err("invalid X-AppManager-Replace header".to_owned())
        }
    } else {
        Ok((false, (length, filename, token, replace)))
    }
}

/// Parses a request head from the bytes received so far.
pub fn read_head(input: &[u8]) -> (r: Result<RequestHead, String>)
    ensures
        r matches Ok(h) ==> parsed_head(input@) == Ok::<HeadView, Seq<char>>((h.method@, h.path@, (h.content_length, h.filename@, h.token@, h.replace_existing))),
        r matches Err(e) ==> parsed_head(input@) == Err::<HeadView, Seq<char>>(e@),
{
    let (request_line, n) = match read_limited_line(input, 0, MAX_HEADER_BYTES) {
        Ok(v) => v,
        Err(e) => return Err(e),
    };
    if n == 0 {
        return Err("empty request".to_owned());
    }
    let t = chars_of(request_line.as_str());
    let parts = crate::storage::fields_of(t.as_slice());
    let ghost pv = crate::paths::views(parts@);
    assert(pv.len() == parts.len());
    let empty: Vec<char> = Vec::new();
    let method_raw: &[char] = if parts.len() > 0 { parts[0].as_slice() } else { empty.as_slice() };
    let target: &[char] = if parts.len() > 1 { parts[1].as_slice() } else { empty.as_slice() };
    let version: &[char] = if parts.len() > 2 { parts[2].as_slice() } else { empty.as_slice() };
    proof {
        if parts.len() > 0 {
            assert(pv[0] == parts[0]@);
        }
        if parts.len() > 1 {
            assert(pv[1] == parts[1]@);
        }
        if parts.len() > 2 {
            assert(pv[2] == parts[2]@);
        }
    }
    let method = crate::text::to_ascii_uppercase(method_raw);
    if !(crate::text::eq_lit(method.as_slice(), "GET") || crate::text::eq_lit(method.as_slice(), "POST"))
        || !crate::text::starts_with_lit(version, "HTTP/1.") {
        return Err("unsupported HTTP request".to_owned());
    }
    let q = crate::text::index_of_first(target, '?');
    let path = slice(target, 0, q);
    if !(path.len() > 0 && path[0] == '/') || crate::text::has_char(path.as_slice(), '\r')
        || crate::text::has_char(path.as_slice(), '\n') || crate::text::has_char(path.as_slice(), '\0') {
        return Err("invalid request path".to_owned());
    }
    let mut fields: (Option<u64>, String, String, bool) = (None, String::new(), String::new(), false);
    let mut pos = n;
    let mut used = n;
    let ghost start = (None::<u64>, Seq::<char>::empty(), Seq::<char>::empty(), false);
    assert(fields.1@ =~= Seq::<char>::empty() && fields.2@ =~= Seq::<char>::empty());
    assert(parsed_head(input@) == (match header_lines(input@, n as int, n as int, start) {
        Err(e) => Err(e),
        Ok(f) => Ok::<HeadView, Seq<char>>((method@, path@, f)),
    }));
    loop
        invariant_except_break
            pos <= input.len(),
            used == pos,
            used >= 1,
            header_lines(input@, n as int, n as int, start) == header_lines(input@, pos as int, used as int, (fields.0, fields.1@, fields.2@, fields.3)),
        invariant
            parsed_head(input@) == (match header_lines(input@, n as int, n as int, start) {
                Err(e) => Err(e),
                Ok(f) => Ok::<HeadView, Seq<char>>((method@, path@, f)),
            }),
        ensures
            parsed_head(input@) == Ok::<HeadView, Seq<char>>((method@, path@, (fields.0, fields.1@, fields.2@, fields.3))),
        decreases input.len() - pos,
    {
        let remaining = if used >= MAX_HEADER_BYTES { 0 } else { MAX_HEADER_BYTES - used };
        let (line, end) = match read_limited_line(input, pos, remaining) {
            Ok(v) => v,
            Err(e) => return Err(e),
        };
        if end == pos || pos >= input.len() {
            return Err("incomplete HTTP headers".to_owned());
        }
        if used + (end - pos) > MAX_HEADER_BYTES {
            return Err("HTTP headers are too large".to_owned());
        }
        match apply_header(line.as_str(), fields) {
            Err(e) => return Err(e),
            Ok((true, f)) => {
                fields = f;
                break;
            },
            Ok((false, f)) => {
                fields = f;
            },
        }
        used = used + (end - pos);
        pos = end;
    }
    Ok(RequestHead {
        method: string_of(method.as_slice()),
        path: string_of(path.as_slice()),
        content_length: fields.0,
        filename: fields.1,
        token: fields.2,
        replace_existing: fields.3,
    })
}

// ---------------------------------------------------------------------------
// Request dispatch.

/// Largest upload body, in bytes.
pub const MAX_UPLOAD_BODY: u64 = 4294967296;

/// What the server does with a request.
#[derive(Clone, Copy, Debug, PartialEq, Eq, Structural)]
pub enum Route {
    /// The management page.
    Index,
    /// Liveness, without pairing.
    Status,
    /// Exchanges the pairing code for the session token.
    Pairing,
    /// Any other request without the session token.
    Unauthorized,
    /// Cancels the running upload.
    Cancel,
    /// The inventory snapshot.
    Snapshot,
    /// Applies management actions.
    Manage,
    /// Receives and installs an archive.
    Upload,
    NotFound,
}

/// The route of a request: the page, the status and the pairing exchange
/// are open; everything else needs the session token.
pub open spec fn route_of(method: Seq<char>, path: Seq<char>, authorized: bool) -> Route {
    if method == "GET"@ && path == "/"@ {
        Route::Index
    } else if method == "GET"@ && path == "/api/status"@ {
        Route::Status
    } else if method == "POST"@ && path == "/api/session"@ {
        Route::Pairing
    } else if !authorized {
        Route::Unauthorized
    } else if method == "POST"@ && path == "/api/cancel"@ {
        Route::Cancel
    } else if method == "GET"@ && (path == "/api/snapshot"@ || path == "/api/list"@) {
        Route::Snapshot
    } else if method == "POST"@ && path == "/api/manage"@ {
        Route::Manage
    } else if method == "POST"@ && path == "/api/upload"@ {
        Route::Upload
    } else {
        Route::NotFound
    }
}

/// Routes a request whose head carries `token`, for a server whose session
/// token is `session_token`.
pub fn route(method: &str, path: &str, token: &str, session_token: &str) -> (r: Route)
    ensures
        r == route_of(method@, path@, token@ == session_token@),
{
    proof {
        vstd::utf8::encode_utf8_decode_utf8(token@);
        vstd::utf8::encode_utf8_decode_utf8(session_token@);
    }
    let m = chars_of(method);
    let p = chars_of(path);
    if crate::text::eq_lit(m.as_slice(), "GET") && crate::text::eq_lit(p.as_slice(), "/") {
        return Route::Index;
    }
    if crate::text::eq_lit(m.as_slice(), "GET") && crate::text::eq_lit(p.as_slice(), "/api/status") {
        return Route::Status;
    }
    if crate::text::eq_lit(m.as_slice(), "POST") && crate::text::eq_lit(p.as_slice(), "/api/session") {
        return Route::Pairing;
    }
    if !constant_time_eq(token.as_bytes(), session_token.as_bytes()) {
        return Route::Unauthorized;
    }
    if crate::text::eq_lit(m.as_slice(), "POST") && crate::text::eq_lit(p.as_slice(), "/api/cancel") {
        Route::Cancel
    } else if crate::text::eq_lit(m.as_slice(), "GET") && (crate::text::eq_lit(p.as_slice(), "/api/snapshot")
        || crate::text::eq_lit(p.as_slice(), "/api/list")) {
        Route::Snapshot
    } else if crate::text::eq_lit(m.as_slice(), "POST") && crate::text::eq_lit(p.as_slice(), "/api/manage") {
        Route::Manage
    } else if crate::text::eq_lit(m.as_slice(), "POST") && crate::text::eq_lit(p.as_slice(), "/api/upload") {
        Route::Upload
    } else {
        Route::NotFound
    }
}

/// The refusal of an upload request before its body is read, as a status
/// and message; the length to read otherwise.
pub open spec fn upload_admission(content_length: Option<u64>, filename: Seq<char>) -> Result<u64, (u16, Seq<char>)> {
    match content_length {
        None => Err((400, "missing Content-Length"@)),
        Some(n) => if n == 0 || n > MAX_UPLOAD_BODY {
            Err((413, "zip 文件必须小于 4 GiB"@))
        } else if filename.len() == 0 {
            Err((400, "missing X-Filename"@))
        } else {
            Ok(n)
        },
    }
}

/// Checks the head of an upload: a length between one byte and 4 GiB, and a
/// file name.
pub fn admit_upload(content_length: Option<u64>, filename: &str) -> (r: Result<u64, (u16, String)>)
    ensures
        match r {
            Ok(n) => upload_admission(content_length, filename@) == Ok::<u64, (u16, Seq<char>)>(n),
            Err((status, message)) => upload_admission(content_length, filename@) == Err::<u64, (u16, Seq<char>)>(
                (status, message@),
            ),
        },
{
    let n = match content_length {
        Some(n) => n,
        None => return Err((400, "missing Content-Length".to_owned())),
    };
    if n == 0 || n > MAX_UPLOAD_BODY {
        return Err((413, "zip 文件必须小于 4 GiB".to_owned()));
    }
    if filename.unicode_len() == 0 {
        return Err((400, "missing X-Filename".to_owned()));
    }
    Ok(n)
}

/// The status of a failed management request: 409 when the inventory
/// changed under the request, 400 otherwise.
pub fn manage_failure_status(message: &str) -> (r: u16)
    ensures
        r == (if crate::text::is_prefix("inventory changed"@, message@) {
            409u16
        } else {
            400u16
        }),
{
    if crate::text::starts_with_lit(chars_of(message).as_slice(), "inventory changed") {
        409
    } else {
        400
    }
}

/// The pairing code in a session request body: its text, with invalid UTF-8
/// replaced, trimmed.
pub fn pairing_code(body: &[u8]) -> (r: String)
    ensures
        r@ == trimmed(utf8_lossy(body@)),
{
    let text = lossy_text(body);
    string_of(trim(chars_of(text.as_str()).as_slice()).as_slice())
}

/// The refusal of a pairing attempt as a status and message; none when it
/// was accepted.
pub fn pairing_refusal(result: crate::pairing::PairingResult) -> (r: Option<(u16, &'static str)>)
    ensures
        match result {
            crate::pairing::PairingResult::Accepted => r is None,
            crate::pairing::PairingResult::Rejected => r matches Some((s, m)) && s == 401 && m@ == "配对码不正确"@,
            crate::pairing::PairingResult::RateLimited => r matches Some((s, m)) && s == 429 && m@
                == "尝试过于频繁，请稍后重试"@,
        },
{
    match result {
        crate::pairing::PairingResult::Accepted => None,
        crate::pairing::PairingResult::Rejected => {
            Some((401, "配对码不正确"))
        },
        crate::pairing::PairingResult::RateLimited => Some((429, "尝试过于频繁，请稍后重试")),
    }
}

/// Without the session token a request reaches only the page, the status
/// and the pairing exchange; nothing that reads or changes the device.
pub proof fn lemma_unpaired_requests_reach_no_management(method: Seq<char>, path: Seq<char>)
    ensures
        route_of(method, path, false) == Route::Index || route_of(method, path, false) == Route::Status
            || route_of(method, path, false) == Route::Pairing || route_of(method, path, false)
            == Route::Unauthorized,
{
}

// ---------------------------------------------------------------------------
// Request bodies and uploads.

/// Largest body of a control request, in bytes.
pub const MAX_CONTROL_BODY: u64 = 65536;

/// The length of a control request's body: given, and at most 64 KiB.
pub fn control_body_length(length: Option<u64>) -> (r: Result<u64, String>)
    ensures
        length is None ==> (r matches Err(e) && e@ == "missing Content-Length"@),
        length matches Some(n) ==> (n > MAX_CONTROL_BODY ==> (r matches Err(e) && e@ == "request body is too large"@)),
        length matches Some(n) ==> (n <= MAX_CONTROL_BODY ==> r == Ok::<u64, String>(n)),
{
    match length {
        None => Err("missing Content-Length".to_owned()),
        Some(n) => if n > MAX_CONTROL_BODY {
            Err("request body is too large".to_owned())
        } else {
            Ok(n)
        },
    }
}

/// A body that ended before its announced length is refused.
pub fn check_body_complete(received: u64, length: u64) -> (r: Result<(), String>)
    ensures
        r is Ok <==> received == length,
        r matches Err(e) ==> e@ == "request body ended early"@,
{
    if received != length {
        Err("request body ended early".to_owned())
    } else {
        Ok(())
    }
}

/// Room an upload must leave free.
pub const UPLOAD_SPACE_RESERVE: u64 = 67108864;

/// An upload is refused when the filesystem reports less free space than its
/// length plus the reserve.
pub fn check_upload_space(available: Option<u64>, length: u64) -> (r: Result<(), String>)
    ensures
        r is Err <==> (available matches Some(a) && a < crate::install_space::saturating_plus(length, UPLOAD_SPACE_RESERVE)),
        r matches Err(e) ==> e@ == "存储空间不足，无法接收这个 zip 文件"@,
{
    match available {
        Some(a) => if a < length.saturating_add(UPLOAD_SPACE_RESERVE) {
            Err("存储空间不足，无法接收这个 zip 文件".to_owned())
        } else {
            Ok(())
        },
        None => Ok(()),
    }
}

/// The name an upload is stored under: a time stamp, the process, the
/// attempt, then the safe file name, joined by `-`.
pub fn upload_file_name(millis: u64, process: u32, attempt: u32, filename: &str) -> (r: String)
    ensures
        r@ == crate::text::decimal_spec(millis as nat) + seq!['-'] + crate::text::decimal_spec(process as nat) + seq!['-']
            + crate::text::decimal_spec(attempt as nat) + seq!['-'] + filename@,
{
    let mut out = crate::text::decimal(millis);
    out.push('-');
    crate::text::push_all(&mut out, crate::text::decimal(process as u64).as_slice());
    out.push('-');
    crate::text::push_all(&mut out, crate::text::decimal(attempt as u64).as_slice());
    out.push('-');
    crate::text::push_all(&mut out, chars_of(filename).as_slice());
    string_of(out.as_slice())
}

/// An upload that received fewer bytes than announced is refused.
pub fn check_upload_complete(received: u64, length: u64) -> (r: Result<(), String>)
    ensures
        r is Ok <==> received == length,
        r matches Err(e) ==> e@ == "上传中断，请重新选择文件"@,
{
    if received != length {
        Err("上传中断，请重新选择文件".to_owned())
    } else {
        Ok(())
    }
}

/// Most paths one management request may name.
pub const MAX_MANAGED_PATHS: usize = 256;

/// An inventory revision: 64 lower-case hexadecimal digits.
pub open spec fn revision_ok(r: Seq<char>) -> bool {
    r.len() == 64 && forall|i: int| 0 <= i < r.len() ==> (('0' <= #[trigger] r[i] && r[i] <= '9') || ('a' <= r[i] && r[i] <= 'f'))
}

/// The action kind a management request names, and whether it takes paths.
pub open spec fn managed_kind(action: Seq<char>) -> Option<(Seq<char>, bool)> {
    if action == "uninstall"@ {
        Some(("TRASH"@, true))
    } else if action == "restore"@ {
        Some(("RESTORE_ITEM"@, true))
    } else if action == "restore_replace"@ {
        Some(("RESTORE_REPLACE"@, true))
    } else if action == "delete"@ {
        Some(("DELETE_ITEM"@, true))
    } else if action == "empty_trash"@ {
        Some(("EMPTY_TRASH"@, false))
    } else {
        None
    }
}

/// Turns a management request into the actions it stands for: one per path
/// for uninstall, restore, restore-with-replace and delete (which need at
/// least one path), and one `EMPTY_TRASH` action (which takes none).
pub fn management_actions(action: &str, revision: &str, paths: &Vec<String>) -> (r: Result<Vec<crate::launcher::EmbeddedAction>, String>)
    ensures
        !revision_ok(revision@) ==> (r matches Err(e) && e@ == "invalid inventory revision"@),
        revision_ok(revision@) && paths.len() > MAX_MANAGED_PATHS ==> (r matches Err(e) && e@ == "too many selected paths"@),
        revision_ok(revision@) && paths.len() <= MAX_MANAGED_PATHS ==> match managed_kind(action@) {
            None => r matches Err(e) && e@ == "invalid management action"@,
            Some((kind, with_paths)) => if with_paths != (paths.len() > 0) {
                r matches Err(e) && e@ == "invalid management action"@
            } else if with_paths {
                r matches Ok(acts) && acts.len() == paths.len() && forall|i: int| 0 <= i < acts.len() ==> {
                    let a = #[trigger] acts@[i];
                    &&& a.kind@ == kind
                    &&& a.arg@ == paths@[i]@
                    &&& a.source_identity is None
                    &&& !a.replace_existing
                    &&& a.password is None
                }
            } else {
                r matches Ok(acts) && acts.len() == 1 && acts@[0].kind@ == kind && acts@[0].arg@ == "-"@
                    && acts@[0].source_identity is None && !acts@[0].replace_existing && acts@[0].password is None
            },
        },
{
    let rev = chars_of(revision);
    let mut ok = rev.len() == 64;
    let mut i: usize = 0;
    while i < rev.len()
        invariant
            i <= rev.len(),
            ok == (rev@.len() == 64 && forall|j: int| 0 <= j < i ==> (('0' <= #[trigger] rev@[j] && rev@[j] <= '9') || ('a' <= rev@[j] && rev@[j] <= 'f'))),
        decreases rev.len() - i,
    {
        let c = rev[i];
        if !(('0' <= c && c <= '9') || ('a' <= c && c <= 'f')) {
            ok = false;
        }
        i += 1;
    }
    if !ok {
        return Err("invalid inventory revision".to_owned());
    }
    if paths.len() > MAX_MANAGED_PATHS {
        return Err("too many selected paths".to_owned());
    }
    let a = chars_of(action);
    let (kind, with_paths): (&str, bool) = if crate::text::eq_lit(a.as_slice(), "uninstall") {
        ("TRASH", true)
    } else if crate::text::eq_lit(a.as_slice(), "restore") {
        ("RESTORE_ITEM", true)
    } else if crate::text::eq_lit(a.as_slice(), "restore_replace") {
        ("RESTORE_REPLACE", true)
    } else if crate::text::eq_lit(a.as_slice(), "delete") {
        ("DELETE_ITEM", true)
    } else if crate::text::eq_lit(a.as_slice(), "empty_trash") {
        ("EMPTY_TRASH", false)
    } else {
        return Err("invalid management action".to_owned());
    };
    assert(managed_kind(action@) == Some((kind@, with_paths)));
    if with_paths != (paths.len() > 0) {
        return Err("invalid management action".to_owned());
    }
    let mut out: Vec<crate::launcher::EmbeddedAction> = Vec::new();
    if !with_paths {
        out.push(crate::launcher::EmbeddedAction {
            kind: kind.to_owned(),
            arg: "-".to_owned(),
            source_identity: None,
            replace_existing: false,
            password: None,
        });
        return Ok(out);
    }
    let mut k: usize = 0;
    while k < paths.len()
        invariant
            k <= paths.len(),
            out.len() == k,
            forall|x: int| 0 <= x < k ==> {
                let a = #[trigger] out@[x];
                &&& a.kind@ == kind@
                &&& a.arg@ == paths@[x]@
                &&& a.source_identity is None
                &&& !a.replace_existing
                &&& a.password is None
            },
        decreases paths.len() - k,
    {
        out.push(crate::launcher::EmbeddedAction {
            kind: kind.to_owned(),
            arg: paths[k].clone(),
            source_identity: None,
            replace_existing: false,
            password: None,
        });
        k += 1;
    }
    Ok(out)
}

} // verus!

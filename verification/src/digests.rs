//! Message digests: MD5 of streamed content (the `md5` crate), SHA-256 (the
//! `sha2` crate), and their lower-case hexadecimal text.
use vstd::prelude::*;

use sha2::{Digest, Sha256};

use crate::text::string_of;

verus! {

/// `md5::Context`, the state of a streamed MD5 computation.
#[verifier::external_type_specification]
#[verifier::external_body]
pub struct ExMd5Context(md5::Context);

/// The bytes a context has consumed since it was created.
pub uninterp spec fn md5_consumed(context: md5::Context) -> Seq<u8>;

/// The MD5 digest of `bytes`.
pub uninterp spec fn md5_of(bytes: Seq<u8>) -> Seq<u8>;

/// The SHA-256 digest of `bytes`.
pub uninterp spec fn sha256_of(bytes: Seq<u8>) -> Seq<u8>;

/// `md5::Context::new`: a context that has consumed nothing.
#[verifier::external_body]
pub(crate) fn md5_new() -> (r: md5::Context)
    ensures
        md5_consumed(r) == Seq::<u8>::empty(),
{
    md5::Context::new()
}

/// `md5::Context::consume`: appends `data` to what the context consumed.
#[verifier::external_body]
pub(crate) fn md5_consume(context: &mut md5::Context, data: &[u8])
    ensures
        md5_consumed(*final(context)) == md5_consumed(*old(context)) + data@,
{
    context.consume(data);
}

/// `md5::Context::finalize`: the 16-byte MD5 digest of everything the
/// context consumed.
#[verifier::external_body]
pub(crate) fn md5_finalize(context: md5::Context) -> (r: [u8; 16])
    ensures
        r@ == md5_of(md5_consumed(context)),
{
    context.finalize().0
}

/// `<Sha256 as Digest>::digest`: the 32-byte SHA-256 digest of `bytes`.
#[verifier::external_body]
pub(crate) fn sha256(bytes: &[u8]) -> (r: Vec<u8>)
    ensures
        r@ == sha256_of(bytes@),
        r@.len() == 32,
{
    Sha256::digest(bytes).to_vec()
}

pub open spec fn hex_char(v: u8) -> char
    recommends
        v < 16,
{
    if v < 10 {
        (('0' as u8) + v) as char
    } else {
        (('a' as u8) + (v - 10)) as char
    }
}

/// Two lower-case hexadecimal digits per byte, most significant first.
pub open spec fn lower_hex_text(bytes: Seq<u8>) -> Seq<char>
    decreases bytes.len(),
{
    if bytes.len() == 0 {
        Seq::empty()
    } else {
        lower_hex_text(bytes.drop_last()) + seq![hex_char(bytes.last() / 16), hex_char(bytes.last() % 16)]
    }
}

fn hex_digit(v: u8) -> (r: char)
    requires
        v < 16,
    ensures
        r == hex_char(v),
{
    if v < 10 {
        ((48u8 + v) as char)
    } else {
        ((97u8 + (v - 10)) as char)
    }
}

/// The lower-case hexadecimal text of `bytes`, as `{:02x}` writes each.
pub fn lower_hex(bytes: &[u8]) -> (r: String)
    ensures
        r@ == lower_hex_text(bytes@),
{
    let mut out: Vec<char> = Vec::new();
    let mut i: usize = 0;
    while i < bytes.len()
        invariant
            i <= bytes.len(),
            out@ == lower_hex_text(bytes@.subrange(0, i as int)),
        decreases bytes.len() - i,
    {
        let b = bytes[i];
        out.push(hex_digit(b / 16));
        out.push(hex_digit(b % 16));
        assert(bytes@.subrange(0, i + 1).drop_last() =~= bytes@.subrange(0, i as int));
        i += 1;
    }
    assert(bytes@.subrange(0, bytes.len() as int) =~= bytes@);
    string_of(out.as_slice())
}

} // verus!

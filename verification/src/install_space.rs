//! Free-space checks before an install writes: what each filesystem must
//! hold, and the refusal when it cannot.
use vstd::prelude::*;

use crate::text::{chars_of, decimal, decimal_spec, push_all, push_lit, string_of};

verus! {

/// Room kept free beyond what an install writes.
pub const INSTALL_SPACE_RESERVE: u64 = 67108864;

pub const MIB: u64 = 1048576;

pub open spec fn saturating_plus(a: u64, b: u64) -> u64 {
    if a + b > u64::MAX {
        u64::MAX
    } else {
        (a + b) as u64
    }
}

/// `required` in MiB, rounded up (saturating near the top of `u64`).
pub open spec fn mib_needed(required: u64) -> u64 {
    (saturating_plus(required, (MIB - 1) as u64) / MIB) as u64
}

pub open spec fn shortfall_message(purpose: Seq<char>, required: u64) -> Seq<char> {
    "存储空间不足，无法"@ + purpose + "（至少还需要 "@ + decimal_spec(mib_needed(required) as nat) + " MiB）"@
}

/// Refuses an operation whose filesystem reports less free space than it
/// needs; an unknown amount of free space is no refusal.
pub fn check_free_space(available: Option<u64>, required: u64, purpose: &str) -> (r: Result<(), String>)
    ensures
        r is Err <==> (available matches Some(a) && a < required),
        r matches Err(e) ==> e@ == shortfall_message(purpose@, required),
{
    match available {
        Some(a) => {
            if a < required {
                let mib = required.saturating_add(MIB - 1) / MIB;
                let mut out = chars_of("存储空间不足，无法");
                push_all(&mut out, chars_of(purpose).as_slice());
                push_lit(&mut out, "（至少还需要 ");
                push_all(&mut out, decimal(mib).as_slice());
                push_lit(&mut out, " MiB）");
                return Err(string_of(out.as_slice()));
            }
            Ok(())
        },
        None => Ok(()),
    }
}

/// A stand-in filesystem key from a path's bytes, for systems without
/// device numbers: each byte folded in as `hash * 131 + byte`, wrapping.
pub open spec fn path_hash(bytes: Seq<u8>) -> u64
    decreases bytes.len(),
{
    if bytes.len() == 0 {
        0
    } else {
        path_hash(bytes.drop_last()).wrapping_mul(131).wrapping_add(bytes.last() as u64)
    }
}

pub fn fallback_filesystem_key(parent: &str) -> (r: u64)
    ensures
        r == path_hash(vstd::utf8::encode_utf8(parent@)),
{
    let bytes = parent.as_bytes();
    let mut hash: u64 = 0;
    let mut i: usize = 0;
    while i < bytes.len()
        invariant
            i <= bytes.len(),
            bytes@ == vstd::utf8::encode_utf8(parent@),
            hash == path_hash(bytes@.subrange(0, i as int)),
        decreases bytes.len() - i,
    {
        assert(bytes@.subrange(0, i + 1).drop_last() =~= bytes@.subrange(0, i as int));
        hash = hash.wrapping_mul(131).wrapping_add(bytes[i] as u64);
        i += 1;
    }
    assert(bytes@.subrange(0, bytes.len() as int) =~= bytes@);
    hash
}

/// What one install target needs on its filesystem: the filesystem's key,
/// the target's parent directory, and the bytes written there.
#[derive(Clone, Debug, PartialEq, Eq)]
pub struct DestinationUse {
    pub key: u64,
    pub parent: String,
    pub bytes: u64,
}

pub open spec fn use_key(u: DestinationUse) -> u64 {
    u.key
}

/// The bytes the first `n` targets write on filesystem `key`.
pub open spec fn bytes_on(items: Seq<DestinationUse>, key: u64, n: int) -> int
    decreases n,
{
    if n <= 0 {
        0
    } else {
        bytes_on(items, key, n - 1) + if items[n - 1].key == key {
            items[n - 1].bytes as int
        } else {
            0int
        }
    }
}

/// The first of the first `n` targets on filesystem `key`.
pub open spec fn first_on(items: Seq<DestinationUse>, key: u64, n: int) -> int
    decreases n,
{
    if n <= 0 {
        -1
    } else if first_on(items, key, n - 1) >= 0 {
        first_on(items, key, n - 1)
    } else if items[n - 1].key == key {
        n - 1
    } else {
        -1
    }
}

/// The demand of each filesystem among the first `n` targets, by key: once
/// per filesystem, with the parent of its first target and the bytes of all
/// its targets (capped at `u64::MAX`).
pub open spec fn demand_of(items: Seq<DestinationUse>, n: int, out: Seq<DestinationUse>) -> bool {
    &&& forall|a: int, b: int| 0 <= a < b < out.len() ==> (#[trigger] out[a]).key < (#[trigger] out[b]).key
    &&& forall|a: int| 0 <= a < out.len() ==> {
        let d = #[trigger] out[a];
        &&& first_on(items, d.key, n) >= 0
        &&& d.parent == items[first_on(items, d.key, n)].parent
        &&& d.bytes == if bytes_on(items, d.key, n) > u64::MAX { u64::MAX as int } else { bytes_on(items, d.key, n) }
    }
    &&& forall|x: int| #![trigger items[x]] 0 <= x < n ==> exists|a: int| 0 <= a < out.len() && (#[trigger] out[a]).key == items[x].key
}

proof fn lemma_first_on_bounds(items: Seq<DestinationUse>, key: u64, n: int)
    requires
        0 <= n <= items.len(),
    ensures
        first_on(items, key, n) >= 0 ==> first_on(items, key, n) < n && items[first_on(items, key, n)].key == key,
        first_on(items, key, n) < 0 ==> forall|x: int| 0 <= x < n ==> items[x].key != key,
        first_on(items, key, n) < 0 ==> bytes_on(items, key, n) == 0,
        bytes_on(items, key, n) >= 0,
    decreases n,
{
    if n > 0 {
        lemma_first_on_bounds(items, key, n - 1);
    }
}

/// Groups install targets by filesystem, in key order.
pub fn filesystem_demand(items: &Vec<DestinationUse>) -> (r: Vec<DestinationUse>)
    ensures
        demand_of(items@, items.len() as int, r@),
{
    let ghost it = items@;
    let mut out: Vec<DestinationUse> = Vec::new();
    let mut n: usize = 0;
    while n < items.len()
        invariant
            n <= items.len(),
            it == items@,
            demand_of(it, n as int, out@),
        decreases items.len() - n,
    {
        let item = &items[n];
        let key = item.key;
        let mut k: usize = 0;
        while k < out.len() && out[k].key < key
            invariant
                k <= out.len(),
                forall|a: int| 0 <= a < k ==> (#[trigger] out@[a]).key < key,
            decreases out.len() - k,
        {
            k += 1;
        }
        let ghost o = out@;
        proof {
            lemma_first_on_bounds(it, key, n as int);
            lemma_first_on_bounds(it, key, n + 1);
        }
        if k < out.len() && out[k].key == key {
            let bytes = out[k].bytes.saturating_add(item.bytes);
            let d = DestinationUse { key, parent: out[k].parent.clone(), bytes };
            out.set(k, d);
            proof {
                assert forall|a: int| 0 <= a < out@.len() implies {
                    let d = #[trigger] out@[a];
                    &&& first_on(it, d.key, n + 1) >= 0
                    &&& d.parent == it[first_on(it, d.key, n + 1)].parent
                    &&& d.bytes == if bytes_on(it, d.key, n + 1) > u64::MAX { u64::MAX as int } else { bytes_on(it, d.key, n + 1) }
                } by {
                    let d = out@[a];
                    lemma_first_on_bounds(it, d.key, n as int);
                    lemma_first_on_bounds(it, d.key, n + 1);
                    if a != k {
                        assert(d == o[a]);
                        assert(d.key != key);
                    }
                }
                assert forall|x: int| #![trigger it[x]] 0 <= x < n + 1 implies exists|a: int| 0 <= a < out@.len() && (#[trigger] out@[a]).key == it[x].key by {
                    if x < n {
                        let a = choose|a: int| 0 <= a < o.len() && (#[trigger] o[a]).key == it[x].key;
                        assert(out@[a].key == o[a].key);
                    } else {
                        assert(out@[k as int].key == it[x].key);
                    }
                }
            }
        } else {
            proof {
                if first_on(it, key, n as int) >= 0 {
                    let f = first_on(it, key, n as int);
                    let a = choose|a: int| 0 <= a < o.len() && (#[trigger] o[a]).key == it[f].key;
                    if a < k {
                        assert(o[a].key < key);
                    } else if a > k {
                        assert(o[k as int].key < o[a].key);
                    }
                }
            }
            let d = DestinationUse { key, parent: item.parent.clone(), bytes: item.bytes };
            out.insert(k, d);
            proof {
                assert(out@ =~= o.insert(k as int, d));
                assert forall|a: int, b: int| 0 <= a < b < out@.len() implies (#[trigger] out@[a]).key < (#[trigger] out@[b]).key by {
                    if b < k {
                    } else if b == k {
                        assert(out@[a] == o[a]);
                    } else if a == k {
                        assert(out@[b] == o[b - 1]);
                        if b - 1 > k {
                            assert(o[k as int].key < o[b - 1].key);
                        }
                    } else if a < k {
                        assert(out@[a] == o[a] && out@[b] == o[b - 1]);
                    } else {
                        assert(out@[a] == o[a - 1] && out@[b] == o[b - 1]);
                    }
                }
                assert forall|a: int| 0 <= a < out@.len() implies {
                    let d = #[trigger] out@[a];
                    &&& first_on(it, d.key, n + 1) >= 0
                    &&& d.parent == it[first_on(it, d.key, n + 1)].parent
                    &&& d.bytes == if bytes_on(it, d.key, n + 1) > u64::MAX { u64::MAX as int } else { bytes_on(it, d.key, n + 1) }
                } by {
                    let e = out@[a];
                    lemma_first_on_bounds(it, e.key, n as int);
                    lemma_first_on_bounds(it, e.key, n + 1);
                    if a < k {
                        assert(e == o[a]);
                        assert(e.key != key);
                    } else if a > k {
                        assert(e == o[a - 1]);
                        assert(e.key != key);
                    }
                }
                assert forall|x: int| #![trigger it[x]] 0 <= x < n + 1 implies exists|a: int| 0 <= a < out@.len() && (#[trigger] out@[a]).key == it[x].key by {
                    if x < n {
                        let a = choose|a: int| 0 <= a < o.len() && (#[trigger] o[a]).key == it[x].key;
                        if a < k {
                            assert(out@[a] == o[a]);
                        } else {
                            assert(out@[a + 1] == o[a]);
                        }
                    } else {
                        assert(out@[k as int].key == it[x].key);
                    }
                }
            }
        }
        n += 1;
    }
    out
}

} // verus!

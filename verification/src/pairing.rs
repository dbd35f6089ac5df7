//! Rate limits on pairing attempts, per peer. Times are nanoseconds on the
//! server's monotonic clock.
use vstd::prelude::*;

use vstd::utf8::encode_utf8_decode_utf8;

use crate::text::{chars_of, text_eq};
use crate::web::constant_time_eq;

verus! {

/// How long a peer's record outlives its retry time.
pub const PAIRING_RECORD_NANOS: u64 = 300000000000;

/// Largest number of peers with a record.
pub const MAX_PAIRING_PEERS: usize = 64;

/// Longest wait after a failure.
pub const MAX_PAIRING_DELAY_NANOS: u64 = 8000000000;

/// The answer to one pairing attempt.
#[derive(Clone, Copy, Debug, PartialEq, Eq, Structural)]
pub enum PairingResult {
    Accepted,
    Rejected,
    RateLimited,
}

/// What the limiter remembers of one peer.
#[derive(Clone, Debug)]
pub struct PairingRate {
    pub peer: String,
    /// Failed attempts since the last success.
    pub failures: u32,
    /// No attempt is judged before this time.
    pub retry_after: u64,
}

/// A record as values: peer, failures, retry time.
pub type RateView = (Seq<char>, u32, u64);

/// The pairing attempts of every peer, keyed by peer.
pub struct PairingLimiter {
    rates: Vec<PairingRate>,
}

pub open spec fn rate_view(r: PairingRate) -> RateView {
    (r.peer@, r.failures, r.retry_after)
}

/// `now - then`, or 0 when `then` is later.
pub open spec fn elapsed(now: u64, then: u64) -> u64 {
    if now > then {
        (now - then) as u64
    } else {
        0
    }
}

/// A record is kept while less than the record lifetime has passed since its
/// retry time.
pub open spec fn kept(r: RateView, now: u64) -> bool {
    elapsed(now, r.2) < PAIRING_RECORD_NANOS
}

pub open spec fn pruned(s: Seq<RateView>, now: u64) -> Seq<RateView> {
    s.filter(|r: RateView| kept(r, now))
}

/// The position of `peer`'s record, if any.
pub open spec fn position(s: Seq<RateView>, peer: Seq<char>) -> Option<int> {
    if exists|i: int| 0 <= i < s.len() && #[trigger] s[i].0 == peer {
        Some(choose|i: int| 0 <= i < s.len() && #[trigger] s[i].0 == peer)
    } else {
        None
    }
}

/// No peer has two records.
pub open spec fn distinct_peers(s: Seq<RateView>) -> bool {
    forall|i: int, j: int| 0 <= i < j < s.len() ==> s[i].0 != s[j].0
}

/// The wait after the `failures`-th failure in a row: 250 ms, doubled for
/// each further failure, at most 8 s.
pub open spec fn backoff(failures: u32) -> u64 {
    if failures <= 1 {
        250000000
    } else if failures == 2 {
        500000000
    } else if failures == 3 {
        1000000000
    } else if failures == 4 {
        2000000000
    } else if failures == 5 {
        4000000000
    } else {
        8000000000
    }
}

pub open spec fn saturating_inc(f: u32) -> u32 {
    if f == u32::MAX {
        f
    } else {
        (f + 1) as u32
    }
}

/// One attempt by `peer` at time `now`, whose code matched or not: the
/// answer and the records afterwards. Expired records are dropped first; a
/// new peer is refused while the table is full; a peer waits out its retry
/// time; a match clears the peer's failures and a mismatch sets its next
/// retry time.
pub open spec fn attempt(s: Seq<RateView>, peer: Seq<char>, matched: bool, now: u64) -> (PairingResult, Seq<RateView>) {
    let p = pruned(s, now);
    match position(p, peer) {
        None => if p.len() >= MAX_PAIRING_PEERS {
            (PairingResult::RateLimited, p)
        } else if matched {
            (PairingResult::Accepted, p.push((peer, 0, now)))
        } else {
            (PairingResult::Rejected, p.push((peer, 1, (now + backoff(1)) as u64)))
        },
        Some(i) => {
            let (_, failures, retry_after) = p[i];
            if now < retry_after {
                (PairingResult::RateLimited, p)
            } else if matched {
                (PairingResult::Accepted, p.update(i, (peer, 0, now)))
            } else {
                let f = saturating_inc(failures);
                (PairingResult::Rejected, p.update(i, (peer, f, (now + backoff(f)) as u64)))
            }
        },
    }
}

impl PairingLimiter {
    /// The records, in the order they were created.
    pub closed spec fn records(&self) -> Seq<RateView> {
        self.rates@.map_values(|r: PairingRate| rate_view(r))
    }

    /// At most one record per peer, and at most `MAX_PAIRING_PEERS` records.
    pub closed spec fn wf(&self) -> bool {
        distinct_peers(self.records()) && self.records().len() <= MAX_PAIRING_PEERS
    }

    /// A limiter that remembers nobody.
    pub fn new() -> (r: PairingLimiter)
        ensures
            r.wf(),
            r.records() == Seq::<RateView>::empty(),
    {
        let r = PairingLimiter { rates: Vec::new() };
        assert(r.records() =~= Seq::<RateView>::empty());
        r
    }

    /// Judges one attempt by `peer` to enter `candidate` when the device
    /// shows `code`, at time `now`.
    pub fn verify(&mut self, peer: &str, candidate: &str, code: &str, now: u64) -> (r: PairingResult)
        requires
            old(self).wf(),
            now <= u64::MAX - MAX_PAIRING_DELAY_NANOS,
        ensures
            final(self).wf(),
            (r, final(self).records()) == attempt(old(self).records(), peer@, candidate@ == code@, now),
    {
        let ghost s = self.records();
        let mut kept_rates: Vec<PairingRate> = Vec::new();
        let mut i: usize = 0;
        while i < self.rates.len()
            invariant
                i <= self.rates.len(),
                s == self.records(),
                distinct_peers(s),
                kept_rates@.map_values(|r: PairingRate| rate_view(r)) == pruned(s.subrange(0, i as int), now),
            decreases self.rates.len() - i,
        {
            let r = &self.rates[i];
            let since = if now > r.retry_after { now - r.retry_after } else { 0 };
            proof {
                assert(s.subrange(0, i + 1).drop_last() =~= s.subrange(0, i as int));
                s.subrange(0, i as int).lemma_filter_push(s[i as int], |r: RateView| kept(r, now));
                assert(s.subrange(0, i + 1) =~= s.subrange(0, i as int).push(s[i as int]));
            }
            if since < PAIRING_RECORD_NANOS {
                let ghost before = kept_rates@;
                kept_rates.push(r.clone_rate());
                assert(kept_rates@.map_values(|r: PairingRate| rate_view(r)) =~= before.map_values(
                    |r: PairingRate| rate_view(r),
                ).push(rate_view(*r)));
            }
            i += 1;
        }
        assert(s.subrange(0, s.len() as int) =~= s);
        let ghost p = pruned(s, now);
        proof {
            lemma_pruned_distinct(s, now);
            s.filter_lemma(|r: RateView| kept(r, now));
        }
        self.rates = kept_rates;
        assert(self.records() == p);
        let matched = same_text(candidate, code);
        let name = chars_of(peer);
        let mut found: Option<usize> = None;
        let mut j: usize = 0;
        while j < self.rates.len()
            invariant
                j <= self.rates.len(),
                self.records() == p,
                name@ == peer@,
                found is None ==> forall|k: int| 0 <= k < j ==> #[trigger] p[k].0 != peer@,
                found matches Some(k) ==> k < self.rates.len() && p[k as int].0 == peer@,
            decreases self.rates.len() - j,
        {
            if found.is_none() && text_eq(chars_of(self.rates[j].peer.as_str()).as_slice(), name.as_slice()) {
                found = Some(j);
            }
            j += 1;
        }
        match found {
            None => {
                assert(position(p, peer@) is None);
                if self.rates.len() >= MAX_PAIRING_PEERS {
                    return PairingResult::RateLimited;
                }
                let (failures, retry_after, answer) = if matched {
                    (0u32, now, PairingResult::Accepted)
                } else {
                    (1u32, now + 250000000, PairingResult::Rejected)
                };
                let ghost before = self.rates@;
                self.rates.push(PairingRate { peer: peer.to_owned(), failures, retry_after });
                assert(self.records() =~= p.push((peer@, failures, retry_after)));
                answer
            },
            Some(k) => {
                proof {
                    lemma_position_of_distinct(p, peer@, k as int);
                }
                let failures = self.rates[k].failures;
                let retry_after = self.rates[k].retry_after;
                if now < retry_after {
                    return PairingResult::RateLimited;
                }
                let (f, t, answer) = if matched {
                    (0u32, now, PairingResult::Accepted)
                } else {
                    let f = if failures == u32::MAX { failures } else { failures + 1 };
                    (f, now + delay_after(f), PairingResult::Rejected)
                };
                let entry = PairingRate { peer: peer.to_owned(), failures: f, retry_after: t };
                self.rates.set(k, entry);
                assert(self.records() =~= p.update(k as int, (peer@, f, t)));
                answer
            },
        }
    }
}

impl PairingRate {
    fn clone_rate(&self) -> (r: PairingRate)
        ensures
            rate_view(r) == rate_view(*self),
    {
        PairingRate { peer: self.peer.clone(), failures: self.failures, retry_after: self.retry_after }
    }
}

fn delay_after(failures: u32) -> (r: u64)
    ensures
        r == backoff(failures),
{
    if failures <= 1 {
        250000000
    } else if failures == 2 {
        500000000
    } else if failures == 3 {
        1000000000
    } else if failures == 4 {
        2000000000
    } else if failures == 5 {
        4000000000
    } else {
        8000000000
    }
}

/// Whether the two texts are equal, compared through their bytes in time
/// that depends only on their length.
fn same_text(candidate: &str, code: &str) -> (r: bool)
    ensures
        r == (candidate@ == code@),
{
    proof {
        encode_utf8_decode_utf8(candidate@);
        encode_utf8_decode_utf8(code@);
    }
    constant_time_eq(candidate.as_bytes(), code.as_bytes())
}

proof fn lemma_pruned_distinct(s: Seq<RateView>, now: u64)
    requires
        distinct_peers(s),
    ensures
        distinct_peers(pruned(s, now)),
        pruned(s, now).len() <= s.len(),
    decreases s.len(),
{
    if s.len() > 0 {
        let init = s.drop_last();
        assert(distinct_peers(init));
        lemma_pruned_distinct(init, now);
        assert(s =~= init.push(s.last()));
        init.lemma_filter_push(s.last(), |r: RateView| kept(r, now));
        init.filter_lemma(|r: RateView| kept(r, now));
        let p = pruned(init, now);
        if kept(s.last(), now) {
            assert forall|i: int| 0 <= i < p.len() implies p[i].0 != s.last().0 by {
                assert(p.contains(p[i]));
                init.lemma_filter_contains_rev(|r: RateView| kept(r, now), p[i]);
                let j = choose|j: int| 0 <= j < init.len() && init[j] == p[i];
                assert(s[j] == init[j]);
                assert(s[s.len() - 1] == s.last());
            }
        }
    }
}

proof fn lemma_position_of_distinct(p: Seq<RateView>, peer: Seq<char>, k: int)
    requires
        distinct_peers(p),
        0 <= k < p.len(),
        p[k].0 == peer,
    ensures
        position(p, peer) == Some(k),
{
    let i = choose|i: int| 0 <= i < p.len() && #[trigger] p[i].0 == peer;
    assert(p[i].0 == peer);
    if i != k {
        if i < k {
            assert(p[i].0 != p[k].0);
        } else {
            assert(p[k].0 != p[i].0);
        }
    }
}

/// After a wrong code, the same peer is refused without judging its code
/// until the 250 ms wait has passed.
pub proof fn lemma_rejected_peer_waits(s: Seq<RateView>, peer: Seq<char>, now: u64, later: u64, matched: bool)
    requires
        distinct_peers(s),
        attempt(s, peer, false, now).0 == PairingResult::Rejected,
        now <= later < now + backoff(1),
        now <= u64::MAX - MAX_PAIRING_DELAY_NANOS,
    ensures
        attempt(attempt(s, peer, false, now).1, peer, matched, later).0 == PairingResult::RateLimited,
{
    let p = pruned(s, now);
    lemma_pruned_distinct(s, now);
    let q = attempt(s, peer, false, now).1;
    let k: int = match position(p, peer) {
        None => p.len() as int,
        Some(i) => i,
    };
    assert(q[k].0 == peer);
    assert(q[k].2 >= now + backoff(1));
    assert(distinct_peers(q)) by {
        if position(p, peer) is None {
            assert forall|i: int| 0 <= i < p.len() implies p[i].0 != peer by {
                if p[i].0 == peer {
                    assert(exists|j: int| 0 <= j < p.len() && #[trigger] p[j].0 == peer);
                }
            }
        } else {
            let i = position(p, peer)->0;
            assert(0 <= i < p.len() && p[i].0 == peer);
        }
    }
    assert(kept(q[k], later));
    let qp = pruned(q, later);
    q.filter_lemma(|r: RateView| kept(r, later));
    assert(qp.contains(q[k]));
    lemma_pruned_distinct(q, later);
    let m = choose|m: int| 0 <= m < qp.len() && qp[m] == q[k];
    assert(qp[m].0 == peer);
    lemma_position_of_distinct(qp, peer, m);
}

/// A peer without a record that enters the right code is accepted while the
/// table has room: other peers' failures never lock it out.
pub proof fn lemma_new_peer_with_the_code_is_accepted(s: Seq<RateView>, peer: Seq<char>, now: u64)
    requires
        position(pruned(s, now), peer) is None,
        pruned(s, now).len() < MAX_PAIRING_PEERS,
    ensures
        attempt(s, peer, true, now).0 == PairingResult::Accepted,
{
}

/// After a success the peer's failures are cleared, so its next attempt is
/// judged on its code again.
pub proof fn lemma_accepted_peer_is_not_limited(s: Seq<RateView>, peer: Seq<char>, now: u64, later: u64, matched: bool)
    requires
        distinct_peers(s),
        attempt(s, peer, true, now).0 == PairingResult::Accepted,
        now <= later,
        later - now < PAIRING_RECORD_NANOS,
    ensures
        attempt(attempt(s, peer, true, now).1, peer, matched, later).0 == (if matched {
            PairingResult::Accepted
        } else {
            PairingResult::Rejected
        }),
{
    let p = pruned(s, now);
    lemma_pruned_distinct(s, now);
    let q = attempt(s, peer, true, now).1;
    let k: int = match position(p, peer) {
        None => p.len() as int,
        Some(i) => i,
    };
    assert(q[k] == (peer, 0u32, now));
    assert(distinct_peers(q)) by {
        if position(p, peer) is None {
            assert forall|i: int| 0 <= i < p.len() implies p[i].0 != peer by {
                if p[i].0 == peer {
                    assert(exists|j: int| 0 <= j < p.len() && #[trigger] p[j].0 == peer);
                }
            }
        } else {
            let i = position(p, peer)->0;
            assert(0 <= i < p.len() && p[i].0 == peer);
        }
    }
    assert(kept(q[k], later));
    let qp = pruned(q, later);
    q.filter_lemma(|r: RateView| kept(r, later));
    assert(qp.contains(q[k]));
    lemma_pruned_distinct(q, later);
    let m = choose|m: int| 0 <= m < qp.len() && qp[m] == q[k];
    lemma_position_of_distinct(qp, peer, m);
}

} // verus!

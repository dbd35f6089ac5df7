//! When download progress is reported, and over which span its speed is
//! measured. Times are nanoseconds on a monotonic clock.
use vstd::prelude::*;

verus! {

/// Least time between two Runtime progress reports.
pub const REPORT_INTERVAL_NANOS: u64 = 250000000;

/// `now - then`, or 0 when `then` is later.
pub open spec fn since(now: u64, then: u64) -> u64 {
    if now > then {
        (now - then) as u64
    } else {
        0
    }
}

/// The state of a Runtime download's progress reports: when and at how many
/// bytes the current speed span began, the last byte count seen, and when
/// the last report was written.
pub struct ReportThrottle {
    start: u64,
    base: u64,
    previous: u64,
    last_write: Option<u64>,
}

/// The throttle as values: span start, span base, last count, last report.
pub type ThrottleView = (u64, u64, u64, Option<u64>);

/// The state after seeing `received` at `now`: a count that went back
/// (a restarted transfer) or the first count after a reset starts a new span.
pub open spec fn throttle_seen(s: ThrottleView, now: u64, received: u64) -> ThrottleView {
    let (start, base, previous, last_write) = s;
    if received < previous {
        (now, received, received, None)
    } else if last_write is None {
        (now, received, received, last_write)
    } else {
        (start, base, received, last_write)
    }
}

/// Whether a report is due: not within the interval after the last one,
/// unless the download is complete.
pub open spec fn report_due(s: ThrottleView, now: u64, received: u64, total: u64) -> bool {
    !(s.3 matches Some(last) && since(now, last) < REPORT_INTERVAL_NANOS && (total == 0 || received != total))
}

impl ReportThrottle {
    pub closed spec fn view_of(&self) -> ThrottleView {
        (self.start, self.base, self.previous, self.last_write)
    }

    pub closed spec fn wf(&self) -> bool {
        self.base <= self.previous
    }

    /// A throttle created at `now`.
    pub fn new(now: u64) -> (r: ReportThrottle)
        ensures
            r.wf(),
            r.view_of() == (now, 0u64, 0u64, None::<u64>),
    {
        ReportThrottle { start: now, base: 0, previous: 0, last_write: None }
    }

    /// A transfer begins at `now` with `received` bytes already present.
    pub fn begin(&mut self, now: u64, received: u64)
        ensures
            final(self).wf(),
            final(self).view_of() == (now, received, received, None::<u64>),
    {
        self.start = now;
        self.base = received;
        self.previous = received;
        self.last_write = None;
    }

    /// The transfer finished: its last report is written regardless of the
    /// interval.
    pub fn finish(&mut self, now: u64)
        requires
            old(self).wf(),
            now >= REPORT_INTERVAL_NANOS,
        ensures
            final(self).wf(),
            final(self).view_of() == (old(self).view_of().0, old(self).view_of().1, old(self).view_of().2, Some(
                (now - REPORT_INTERVAL_NANOS) as u64,
            )),
    {
        self.last_write = Some(now - REPORT_INTERVAL_NANOS);
    }

    /// Sees `received` of `total` bytes at `now`. When a report is due,
    /// gives the time and the bytes of the current speed span.
    pub fn update(&mut self, now: u64, received: u64, total: u64) -> (r: Option<(u64, u64)>)
        requires
            old(self).wf(),
        ensures
            final(self).wf(),
            final(self).view_of() == throttle_seen(old(self).view_of(), now, received),
            r is Some <==> report_due(final(self).view_of(), now, received, total),
            r matches Some((elapsed, bytes)) ==> elapsed == since(now, final(self).view_of().0) && bytes == received
                - final(self).view_of().1,
    {
        if received < self.previous {
            self.start = now;
            self.base = received;
            self.last_write = None;
        } else if self.last_write.is_none() {
            self.start = now;
            self.base = received;
        }
        self.previous = received;
        let quiet = match self.last_write {
            Some(last) => {
                let gap = if now > last { now - last } else { 0 };
                gap < REPORT_INTERVAL_NANOS
            },
            None => false,
        };
        if quiet && (total == 0 || received != total) {
            return None;
        }
        let elapsed = if now > self.start { now - self.start } else { 0 };
        Some((elapsed, received - self.base))
    }

    /// A report was written at `now`.
    pub fn written(&mut self, now: u64)
        requires
            old(self).wf(),
        ensures
            final(self).wf(),
            final(self).view_of() == (old(self).view_of().0, old(self).view_of().1, old(self).view_of().2, Some(now)),
    {
        self.last_write = Some(now);
    }
}

/// Least span over which a PortMaster download's speed is measured.
pub const SPEED_SPAN_NANOS: u64 = 250000000;

/// The span over which a PortMaster download's speed is measured: when it
/// began and at how many bytes.
pub struct SpeedSpan {
    start: u64,
    base: u64,
}

impl SpeedSpan {
    pub closed spec fn view_of(&self) -> (u64, u64) {
        (self.start, self.base)
    }

    pub fn new(now: u64) -> (r: SpeedSpan)
        ensures
            r.view_of() == (now, 0u64),
    {
        SpeedSpan { start: now, base: 0 }
    }

    /// Sees `received` bytes at `now`. Once the span is longer than 250 ms,
    /// gives its length and the bytes received in it (none when the count
    /// went back), and starts a new span; a shorter span gives nothing and
    /// is kept.
    pub fn measure(&mut self, now: u64, received: u64) -> (r: Option<(u64, u64)>)
        ensures
            since(now, old(self).view_of().0) > SPEED_SPAN_NANOS ==> (r == Some(
                (since(now, old(self).view_of().0), since(received, old(self).view_of().1)),
            ) && final(self).view_of() == (now, received)),
            since(now, old(self).view_of().0) <= SPEED_SPAN_NANOS ==> (r is None && final(self).view_of()
                == old(self).view_of()),
    {
        let elapsed = if now > self.start { now - self.start } else { 0 };
        if elapsed > SPEED_SPAN_NANOS {
            let bytes = if received > self.base { received - self.base } else { 0 };
            self.start = now;
            self.base = received;
            Some((elapsed, bytes))
        } else {
            None
        }
    }
}

/// A running download is reported at most once per interval: after a report
/// at `written`, a later count that did not go back, seen less than 250 ms
/// later, is not reported unless the download just completed.
pub proof fn lemma_reports_are_spaced(s: ThrottleView, written: u64, now: u64, received: u64, total: u64)
    requires
        s.3 == Some(written),
        received >= s.2,
        written <= now,
        now - written < REPORT_INTERVAL_NANOS,
        total == 0 || received != total,
    ensures
        !report_due(throttle_seen(s, now, received), now, received, total),
{
}

} // verus!

//! The bookkeeping of live event streaming: after each ledger's batch is
//! stored, the counters move on, and every hundred ledgers they are reported
//! and start again.
use vstd::prelude::*;

verus! {

/// After how many ledgers the counters are reported and reset.
pub const LOOP_COUNT_RESET: u32 = 100;

/// The counters kept while streaming: events stored and ledgers seen since
/// the last report.
pub struct EventStream {
    pub event_count: usize,
    pub loop_count: u32,
}

/// A report: so many events in the last so many ledgers.
pub struct StreamReport {
    pub events: usize,
    pub ledgers: u32,
}

/// The counters as a pair of numbers.
pub struct StreamCounts {
    pub events: int,
    pub ledgers: int,
}

/// The counters after a ledger whose batch held `stored` events, and the
/// report due then, if any.
pub open spec fn stream_step(c: StreamCounts, stored: int) -> (StreamCounts, Option<StreamCounts>) {
    let events = c.events + stored;
    let ledgers = c.ledgers + 1;
    if ledgers >= LOOP_COUNT_RESET {
        (StreamCounts { events: 0, ledgers: 0 }, Some(StreamCounts { events, ledgers }))
    } else {
        (StreamCounts { events, ledgers }, None)
    }
}

/// The counters after the batches of a run of ledgers, from fresh counters.
pub open spec fn stream_run(batches: Seq<int>) -> StreamCounts
    decreases batches.len(),
{
    if batches.len() == 0 {
        StreamCounts { events: 0, ledgers: 0 }
    } else {
        stream_step(stream_run(batches.drop_last()), batches.last()).0
    }
}

/// The sum of a run of batch sizes.
pub open spec fn total(batches: Seq<int>) -> int
    decreases batches.len(),
{
    if batches.len() == 0 {
        0
    } else {
        total(batches.drop_last()) + batches.last()
    }
}

impl EventStream {
    /// The counters as numbers.
    pub open spec fn counts(&self) -> StreamCounts {
        StreamCounts { events: self.event_count as int, ledgers: self.loop_count as int }
    }

    /// Counters between two reports: fewer ledgers than the reset count.
    pub open spec fn wf(&self) -> bool {
        self.loop_count < LOOP_COUNT_RESET
    }

    /// Fresh counters.
    pub fn new() -> (s: EventStream)
        ensures
            s.wf(),
            s.counts() == (StreamCounts { events: 0, ledgers: 0 }),
    {
        EventStream { event_count: 0, loop_count: 0 }
    }

    /// Counts a ledger whose batch of `stored` events was written, and gives
    /// the report that is due, if one is.
    pub fn ledger_stored(&mut self, stored: usize) -> (report: Option<StreamReport>)
        requires
            old(self).wf(),
            old(self).event_count + stored <= usize::MAX,
        ensures
            final(self).wf(),
            final(self).counts() == stream_step(old(self).counts(), stored as int).0,
            match (report, stream_step(old(self).counts(), stored as int).1) {
                (Some(r), Some(c)) => r.events as int == c.events && r.ledgers as int == c.ledgers,
                (None, None) => true,
                _ => false,
            },
    {
        self.event_count = self.event_count + stored;
        self.loop_count = self.loop_count + 1;
        if self.loop_count >= LOOP_COUNT_RESET {
            let report = StreamReport { events: self.event_count, ledgers: self.loop_count };
            self.event_count = 0;
            self.loop_count = 0;
            Some(report)
        } else {
            None
        }
    }
}

} // verus!

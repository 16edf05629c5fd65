//! Monitoring counters: per-thread counts of connections, bytes and
//! messages, each kept twice -- a short window that the aggregator resets
//! at every report, and a running total.
//!
//! Counting saturates instead of wrapping: a counter that reaches the
//! machine limit stays there. The periodic report itself -- timing the
//! interval, computing rates and printing -- is I/O work done by the
//! aggregator thread; the sums it prints come from [`Monitoring::aggregate`].
use vstd::prelude::*;

verus! {

/// `a + b`, stopping at the machine limit.
pub open spec fn sat_add(a: nat, b: nat) -> nat {
    if a + b <= usize::MAX as nat {
        a + b
    } else {
        usize::MAX as nat
    }
}

/// The counters of one server thread.
#[derive(Clone, Copy)]
pub struct MonitoringStats {
    pub new_connections: usize,
    pub total_new_connections: usize,
    pub lost_connections: usize,
    pub total_lost_connections: usize,
    pub bytes_read: usize,
    pub total_bytes_read: usize,
    pub bytes_send: usize,
    pub total_bytes_send: usize,
    pub messages_received: usize,
    pub total_messages_received: usize,
    pub messeges_send: usize,
    pub total_messages_send: usize,
}

impl MonitoringStats {
    pub fn new() -> (r: Self)
        ensures
            r == (MonitoringStats {
                new_connections: 0,
                total_new_connections: 0,
                lost_connections: 0,
                total_lost_connections: 0,
                bytes_read: 0,
                total_bytes_read: 0,
                bytes_send: 0,
                total_bytes_send: 0,
                messages_received: 0,
                total_messages_received: 0,
                messeges_send: 0,
                total_messages_send: 0,
            }),
    {
        MonitoringStats {
            new_connections: 0,
            total_new_connections: 0,
            lost_connections: 0,
            total_lost_connections: 0,
            bytes_read: 0,
            total_bytes_read: 0,
            bytes_send: 0,
            total_bytes_send: 0,
            messages_received: 0,
            total_messages_received: 0,
            messeges_send: 0,
            total_messages_send: 0,
        }
    }

    pub fn new_connection(&mut self)
        ensures
            *final(self) == (MonitoringStats {
                new_connections: sat_add(old(self).new_connections as nat, 1) as usize,
                total_new_connections: sat_add(old(self).total_new_connections as nat, 1) as usize,
                ..*old(self)
            }),
    {
        self.new_connections = sat_inc(self.new_connections, 1);
        self.total_new_connections = sat_inc(self.total_new_connections, 1);
    }

    pub fn lost_connection(&mut self)
        ensures
            *final(self) == (MonitoringStats {
                lost_connections: sat_add(old(self).lost_connections as nat, 1) as usize,
                total_lost_connections: sat_add(
                    old(self).total_lost_connections as nat,
                    1,
                ) as usize,
                ..*old(self)
            }),
    {
        self.lost_connections = sat_inc(self.lost_connections, 1);
        self.total_lost_connections = sat_inc(self.total_lost_connections, 1);
    }

    pub fn bytes_read(&mut self, bytes: usize)
        ensures
            *final(self) == (MonitoringStats {
                bytes_read: sat_add(old(self).bytes_read as nat, bytes as nat) as usize,
                total_bytes_read: sat_add(
                    old(self).total_bytes_read as nat,
                    bytes as nat,
                ) as usize,
                ..*old(self)
            }),
    {
        self.bytes_read = sat_inc(self.bytes_read, bytes);
        self.total_bytes_read = sat_inc(self.total_bytes_read, bytes);
    }

    pub fn bytes_send(&mut self, bytes: usize)
        ensures
            *final(self) == (MonitoringStats {
                bytes_send: sat_add(old(self).bytes_send as nat, bytes as nat) as usize,
                total_bytes_send: sat_add(
                    old(self).total_bytes_send as nat,
                    bytes as nat,
                ) as usize,
                ..*old(self)
            }),
    {
        self.bytes_send = sat_inc(self.bytes_send, bytes);
        self.total_bytes_send = sat_inc(self.total_bytes_send, bytes);
    }

    pub fn message_received(&mut self)
        ensures
            *final(self) == (MonitoringStats {
                messages_received: sat_add(old(self).messages_received as nat, 1) as usize,
                total_messages_received: sat_add(
                    old(self).total_messages_received as nat,
                    1,
                ) as usize,
                ..*old(self)
            }),
    {
        self.messages_received = sat_inc(self.messages_received, 1);
        self.total_messages_received = sat_inc(self.total_messages_received, 1);
    }

    pub fn messege_send(&mut self)
        ensures
            *final(self) == (MonitoringStats {
                messeges_send: sat_add(old(self).messeges_send as nat, 1) as usize,
                total_messages_send: sat_add(old(self).total_messages_send as nat, 1) as usize,
                ..*old(self)
            }),
    {
        self.messeges_send = sat_inc(self.messeges_send, 1);
        self.total_messages_send = sat_inc(self.total_messages_send, 1);
    }

    /// Clears the short-window counters after a report; totals stay.
    pub fn reset_window(&mut self)
        ensures
            *final(self) == (MonitoringStats {
                new_connections: 0,
                lost_connections: 0,
                bytes_read: 0,
                bytes_send: 0,
                messages_received: 0,
                messeges_send: 0,
                ..*old(self)
            }),
    {
        self.new_connections = 0;
        self.lost_connections = 0;
        self.bytes_read = 0;
        self.bytes_send = 0;
        self.messages_received = 0;
        self.messeges_send = 0;
    }
}

fn sat_inc(a: usize, b: usize) -> (r: usize)
    ensures
        r as nat == sat_add(a as nat, b as nat),
{
    if a <= usize::MAX - b {
        a + b
    } else {
        usize::MAX
    }
}

/// The saturating sum of one field over a window of per-thread counters.
pub open spec fn spec_sat_sum(s: Seq<nat>) -> nat
    decreases s.len(),
{
    if s.len() == 0 {
        0
    } else {
        sat_add(spec_sat_sum(s.drop_last()), s.last())
    }
}

/// The report aggregator: the report interval and one counter block per
/// server thread.
pub struct Monitoring {
    interval_millis: u64,
    stats: Vec<MonitoringStats>,
}

impl Monitoring {
    pub closed spec fn spec_interval_millis(&self) -> u64 {
        self.interval_millis
    }

    pub closed spec fn spec_stats(&self) -> Seq<MonitoringStats> {
        self.stats@
    }

    pub fn new(interval_millis: u64) -> (r: Self)
        ensures
            r.spec_interval_millis() == interval_millis,
            r.spec_stats() == Seq::<MonitoringStats>::empty(),
    {
        Monitoring { interval_millis, stats: Vec::new() }
    }

    pub fn interval_millis(&self) -> (r: u64)
        ensures
            r == self.spec_interval_millis(),
    {
        self.interval_millis
    }

    /// Adds a fresh counter block for one more thread and returns its
    /// index.
    pub fn get_new_stats(&mut self) -> (r: usize)
        ensures
            final(self).spec_interval_millis() == old(self).spec_interval_millis(),
            r == old(self).spec_stats().len(),
            final(self).spec_stats() == old(self).spec_stats().push(
                (MonitoringStats {
                    new_connections: 0,
                    total_new_connections: 0,
                    lost_connections: 0,
                    total_lost_connections: 0,
                    bytes_read: 0,
                    total_bytes_read: 0,
                    bytes_send: 0,
                    total_bytes_send: 0,
                    messages_received: 0,
                    total_messages_received: 0,
                    messeges_send: 0,
                    total_messages_send: 0,
                }),
            ),
    {
        let r = self.stats.len();
        self.stats.push(MonitoringStats::new());
        r
    }

    /// Replaces thread `i`'s counter block with a fresh snapshot collected
    /// from that thread.
    pub fn set_stats(&mut self, i: usize, snapshot: MonitoringStats)
        requires
            i < old(self).spec_stats().len(),
        ensures
            final(self).spec_interval_millis() == old(self).spec_interval_millis(),
            final(self).spec_stats() == old(self).spec_stats().update(i as int, snapshot),
    {
        let slot = &mut self.stats[i];
        *slot = snapshot;
    }

    /// The sums that the periodic report prints, one saturating total per
    /// counter over all threads.
    pub fn aggregate(&self) -> (r: MonitoringStats)
        ensures
            r.new_connections as nat == spec_sat_sum(
                self.spec_stats().map_values(|s: MonitoringStats| s.new_connections as nat),
            ),
            r.total_new_connections as nat == spec_sat_sum(
                self.spec_stats().map_values(|s: MonitoringStats| s.total_new_connections as nat),
            ),
            r.lost_connections as nat == spec_sat_sum(
                self.spec_stats().map_values(|s: MonitoringStats| s.lost_connections as nat),
            ),
            r.total_lost_connections as nat == spec_sat_sum(
                self.spec_stats().map_values(|s: MonitoringStats| s.total_lost_connections as nat),
            ),
            r.bytes_read as nat == spec_sat_sum(
                self.spec_stats().map_values(|s: MonitoringStats| s.bytes_read as nat),
            ),
            r.total_bytes_read as nat == spec_sat_sum(
                self.spec_stats().map_values(|s: MonitoringStats| s.total_bytes_read as nat),
            ),
            r.bytes_send as nat == spec_sat_sum(
                self.spec_stats().map_values(|s: MonitoringStats| s.bytes_send as nat),
            ),
            r.total_bytes_send as nat == spec_sat_sum(
                self.spec_stats().map_values(|s: MonitoringStats| s.total_bytes_send as nat),
            ),
            r.messages_received as nat == spec_sat_sum(
                self.spec_stats().map_values(|s: MonitoringStats| s.messages_received as nat),
            ),
            r.total_messages_received as nat == spec_sat_sum(
                self.spec_stats().map_values(
                    |s: MonitoringStats| s.total_messages_received as nat,
                ),
            ),
            r.messeges_send as nat == spec_sat_sum(
                self.spec_stats().map_values(|s: MonitoringStats| s.messeges_send as nat),
            ),
            r.total_messages_send as nat == spec_sat_sum(
                self.spec_stats().map_values(|s: MonitoringStats| s.total_messages_send as nat),
            ),
    {
        let len: usize = self.stats.len();
        let mut r = MonitoringStats::new();
        let mut i: usize = 0;
        while i < len
            invariant
                i <= len,
                len == self.stats@.len(),
                r.new_connections as nat == spec_sat_sum(
                    self.spec_stats().subrange(0, i as int).map_values(
                        |s: MonitoringStats| s.new_connections as nat,
                    ),
                ),
                r.total_new_connections as nat == spec_sat_sum(
                    self.spec_stats().subrange(0, i as int).map_values(
                        |s: MonitoringStats| s.total_new_connections as nat,
                    ),
                ),
                r.lost_connections as nat == spec_sat_sum(
                    self.spec_stats().subrange(0, i as int).map_values(
                        |s: MonitoringStats| s.lost_connections as nat,
                    ),
                ),
                r.total_lost_connections as nat == spec_sat_sum(
                    self.spec_stats().subrange(0, i as int).map_values(
                        |s: MonitoringStats| s.total_lost_connections as nat,
                    ),
                ),
                r.bytes_read as nat == spec_sat_sum(
                    self.spec_stats().subrange(0, i as int).map_values(
                        |s: MonitoringStats| s.bytes_read as nat,
                    ),
                ),
                r.total_bytes_read as nat == spec_sat_sum(
                    self.spec_stats().subrange(0, i as int).map_values(
                        |s: MonitoringStats| s.total_bytes_read as nat,
                    ),
                ),
                r.bytes_send as nat == spec_sat_sum(
                    self.spec_stats().subrange(0, i as int).map_values(
                        |s: MonitoringStats| s.bytes_send as nat,
                    ),
                ),
                r.total_bytes_send as nat == spec_sat_sum(
                    self.spec_stats().subrange(0, i as int).map_values(
                        |s: MonitoringStats| s.total_bytes_send as nat,
                    ),
                ),
                r.messages_received as nat == spec_sat_sum(
                    self.spec_stats().subrange(0, i as int).map_values(
                        |s: MonitoringStats| s.messages_received as nat,
                    ),
                ),
                r.total_messages_received as nat == spec_sat_sum(
                    self.spec_stats().subrange(0, i as int).map_values(
                        |s: MonitoringStats| s.total_messages_received as nat,
                    ),
                ),
                r.messeges_send as nat == spec_sat_sum(
                    self.spec_stats().subrange(0, i as int).map_values(
                        |s: MonitoringStats| s.messeges_send as nat,
                    ),
                ),
                r.total_messages_send as nat == spec_sat_sum(
                    self.spec_stats().subrange(0, i as int).map_values(
                        |s: MonitoringStats| s.total_messages_send as nat,
                    ),
                ),
            decreases len - i,
        {
            let s = self.stats[i];
            proof {
                lemma_sat_sum_step(self.spec_stats(), i as int);
            }
            r.new_connections = sat_inc(r.new_connections, s.new_connections);
            r.total_new_connections = sat_inc(r.total_new_connections, s.total_new_connections);
            r.lost_connections = sat_inc(r.lost_connections, s.lost_connections);
            r.total_lost_connections = sat_inc(r.total_lost_connections, s.total_lost_connections);
            r.bytes_read = sat_inc(r.bytes_read, s.bytes_read);
            r.total_bytes_read = sat_inc(r.total_bytes_read, s.total_bytes_read);
            r.bytes_send = sat_inc(r.bytes_send, s.bytes_send);
            r.total_bytes_send = sat_inc(r.total_bytes_send, s.total_bytes_send);
            r.messages_received = sat_inc(r.messages_received, s.messages_received);
            r.total_messages_received = sat_inc(
                r.total_messages_received,
                s.total_messages_received,
            );
            r.messeges_send = sat_inc(r.messeges_send, s.messeges_send);
            r.total_messages_send = sat_inc(r.total_messages_send, s.total_messages_send);
            i = i + 1;
        }
        proof {
            assert(self.spec_stats().subrange(0, len as int) =~= self.spec_stats());
        }
        r
    }
}

/// Extending a window by one counter extends each mapped sum by that
/// counter.
pub proof fn lemma_sat_sum_step(stats: Seq<MonitoringStats>, i: int)
    requires
        0 <= i < stats.len(),
    ensures
        forall|f: spec_fn(MonitoringStats) -> nat|
            spec_sat_sum(#[trigger] stats.subrange(0, i + 1).map_values(f)) == sat_add(
                spec_sat_sum(stats.subrange(0, i).map_values(f)),
                f(stats[i]),
            ),
{
    assert forall|f: spec_fn(MonitoringStats) -> nat|
        spec_sat_sum(#[trigger] stats.subrange(0, i + 1).map_values(f)) == sat_add(
            spec_sat_sum(stats.subrange(0, i).map_values(f)),
            f(stats[i]),
        ) by {
        let a = stats.subrange(0, i + 1).map_values(f);
        assert(a.drop_last() =~= stats.subrange(0, i).map_values(f));
        assert(a.last() == f(stats[i]));
    }
}

} // verus!

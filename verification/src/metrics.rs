//! What the server counts.

use vstd::prelude::*;

use crate::clock::Duration;
use crate::spaces::ReconcileReport;

verus! {

/// Where the metrics go, and how often.
#[derive(Debug)]
pub struct MetricsOutput {
    pub path: String,
    pub interval: Duration,
}

/// All counters at one moment.
#[derive(Debug, Clone, Copy, PartialEq, Eq, Structural)]
pub struct ActorSnapshot {
    pub commands: u64,
    pub responses: u64,
    pub rejections: u64,
    pub resyncs: u64,
    pub lease_expirations: u64,
    pub queue_depth: usize,
    pub queue_depth_max: usize,
    pub queue_saturations: u64,
    pub sessions: usize,
    pub participants: usize,
    pub spaces: usize,
    pub reconciliations: u64,
    pub reconciliation_total_nanos: u64,
    pub reconciliation_max_nanos: u64,
    pub view_delta_ops: u64,
    pub refused_publications: u64,
    pub routing_recompiles: u64,
}

/// `counter` after `amount` more, in the range of a counter.
pub open spec fn counted(counter: u64, amount: int) -> u64 {
    ((counter + amount) % 0x1_0000_0000_0000_0000) as u64
}

/// The larger of two measures.
pub open spec fn larger(a: int, b: int) -> int {
    if a < b {
        b
    } else {
        a
    }
}

/// The nanoseconds of a span, as far as a counter holds them.
pub open spec fn nanos_of(elapsed: Duration) -> u64 {
    if elapsed@ <= u64::MAX {
        elapsed@ as u64
    } else {
        u64::MAX
    }
}

/// The counters of the server.
#[derive(Debug)]
pub struct ActorMetrics {
    counters: ActorSnapshot,
}

impl View for ActorMetrics {
    type V = ActorSnapshot;

    closed spec fn view(&self) -> ActorSnapshot {
        self.counters
    }
}

impl Default for ActorMetrics {
    fn default() -> (metrics: Self)
        ensures
            metrics@ == (ActorSnapshot {
                commands: 0,
                responses: 0,
                rejections: 0,
                resyncs: 0,
                lease_expirations: 0,
                queue_depth: 0,
                queue_depth_max: 0,
                queue_saturations: 0,
                sessions: 0,
                participants: 0,
                spaces: 0,
                reconciliations: 0,
                reconciliation_total_nanos: 0,
                reconciliation_max_nanos: 0,
                view_delta_ops: 0,
                refused_publications: 0,
                routing_recompiles: 0,
            }),
    {
        let counters = ActorSnapshot {
            commands: 0,
            responses: 0,
            rejections: 0,
            resyncs: 0,
            lease_expirations: 0,
            queue_depth: 0,
            queue_depth_max: 0,
            queue_saturations: 0,
            sessions: 0,
            participants: 0,
            spaces: 0,
            reconciliations: 0,
            reconciliation_total_nanos: 0,
            reconciliation_max_nanos: 0,
            view_delta_ops: 0,
            refused_publications: 0,
            routing_recompiles: 0,
        };
        ActorMetrics { counters }
    }
}

impl ActorMetrics {
    /// Counts a command, which left `queue_depth` others waiting.
    pub fn command(&mut self, queue_depth: usize)
        ensures
            final(self)@ == (ActorSnapshot {
                commands: counted(old(self)@.commands, 1),
                queue_depth,
                queue_depth_max: larger(
                    old(self)@.queue_depth_max as int,
                    queue_depth as int,
                ) as usize,
                ..old(self)@
            }),
            old(self)@.commands < u64::MAX ==> final(self)@.commands == old(self)@.commands + 1,
            final(self)@.queue_depth == queue_depth,
            final(self)@.queue_depth_max >= queue_depth,
            final(self)@.queue_depth_max >= old(self)@.queue_depth_max,
            final(self)@.queue_depth_max == queue_depth || final(self)@.queue_depth_max
                == old(self)@.queue_depth_max,
    {
        self.counters.commands = self.counters.commands.wrapping_add(1);
        self.counters.queue_depth = queue_depth;
        if self.counters.queue_depth_max < queue_depth {
            self.counters.queue_depth_max = queue_depth;
        }
    }

    /// Sets how much there is of each.
    pub fn gauges(&mut self, sessions: usize, participants: usize, spaces: usize)
        ensures
            final(self)@ == (ActorSnapshot { sessions, participants, spaces, ..old(self)@ }),
            final(self)@.sessions == sessions,
            final(self)@.participants == participants,
            final(self)@.spaces == spaces,
    {
        self.counters.sessions = sessions;
        self.counters.participants = participants;
        self.counters.spaces = spaces;
    }

    pub fn response(&mut self)
        ensures
            final(self)@ == (ActorSnapshot {
                responses: counted(old(self)@.responses, 1),
                ..old(self)@
            }),
            old(self)@.responses < u64::MAX ==> final(self)@.responses == old(self)@.responses + 1,
    {
        self.counters.responses = self.counters.responses.wrapping_add(1);
    }

    pub fn rejection(&mut self)
        ensures
            final(self)@ == (ActorSnapshot {
                rejections: counted(old(self)@.rejections, 1),
                ..old(self)@
            }),
            old(self)@.rejections < u64::MAX ==> final(self)@.rejections == old(self)@.rejections + 1,
    {
        self.counters.rejections = self.counters.rejections.wrapping_add(1);
    }

    pub fn resync(&mut self)
        ensures
            final(self)@ == (ActorSnapshot {
                resyncs: counted(old(self)@.resyncs, 1),
                ..old(self)@
            }),
            old(self)@.resyncs < u64::MAX ==> final(self)@.resyncs == old(self)@.resyncs + 1,
    {
        self.counters.resyncs = self.counters.resyncs.wrapping_add(1);
    }

    /// Counts sessions whose lease ran out.
    pub fn expired(&mut self, count: usize)
        ensures
            final(self)@ == (ActorSnapshot {
                lease_expirations: counted(old(self)@.lease_expirations, count as int),
                ..old(self)@
            }),
            old(self)@.lease_expirations + count <= u64::MAX ==> final(self)@.lease_expirations
                == old(self)@.lease_expirations + count,
    {
        self.counters.lease_expirations =
            self.counters.lease_expirations.wrapping_add(count as u64);
    }

    pub fn saturated(&mut self)
        ensures
            final(self)@ == (ActorSnapshot {
                queue_saturations: counted(old(self)@.queue_saturations, 1),
                ..old(self)@
            }),
            old(self)@.queue_saturations < u64::MAX ==> final(self)@.queue_saturations == old(self)@.queue_saturations + 1,
    {
        self.counters.queue_saturations = self.counters.queue_saturations.wrapping_add(1);
    }

    /// Counts one reconciliation of a Space.
    pub fn reconciled(&mut self, elapsed: Duration, report: &ReconcileReport)
        ensures
            final(self)@ == (ActorSnapshot {
                reconciliations: counted(old(self)@.reconciliations, 1),
                reconciliation_total_nanos: counted(
                    old(self)@.reconciliation_total_nanos,
                    nanos_of(elapsed) as int,
                ),
                reconciliation_max_nanos: larger(
                    old(self)@.reconciliation_max_nanos as int,
                    nanos_of(elapsed) as int,
                ) as u64,
                view_delta_ops: counted(old(self)@.view_delta_ops, report.delta_len as int),
                refused_publications: counted(
                    old(self)@.refused_publications,
                    if report.refused is Some {
                        1
                    } else {
                        0
                    },
                ),
                routing_recompiles: counted(
                    old(self)@.routing_recompiles,
                    if report.routing_recompiled {
                        1
                    } else {
                        0
                    },
                ),
                ..old(self)@
            }),
            old(self)@.reconciliations < u64::MAX ==> final(self)@.reconciliations
                == old(self)@.reconciliations + 1,
            elapsed@ <= u64::MAX ==> final(self)@.reconciliation_max_nanos >= elapsed@,
            final(self)@.reconciliation_max_nanos >= old(self)@.reconciliation_max_nanos,
            final(self)@.reconciliation_max_nanos == old(self)@.reconciliation_max_nanos
                || final(self)@.reconciliation_max_nanos == elapsed@ || elapsed@ > u64::MAX,
            old(self)@.reconciliation_total_nanos + elapsed@ <= u64::MAX
                ==> final(self)@.reconciliation_total_nanos
                == old(self)@.reconciliation_total_nanos + elapsed@,
            old(self)@.view_delta_ops + report.delta_len <= u64::MAX
                ==> final(self)@.view_delta_ops == old(self)@.view_delta_ops + report.delta_len,
            old(self)@.refused_publications < u64::MAX ==> (
            final(self)@.refused_publications == old(self)@.refused_publications + 1
                <==> report.refused is Some),
            report.refused is None ==> final(self)@.refused_publications
                == old(self)@.refused_publications,
            old(self)@.routing_recompiles < u64::MAX ==> (
            final(self)@.routing_recompiles == old(self)@.routing_recompiles + 1
                <==> report.routing_recompiled),
            !report.routing_recompiled ==> final(self)@.routing_recompiles
                == old(self)@.routing_recompiles,
    {
        let total: u128 = elapsed.as_nanos();
        let nanos: u64 = if total <= u64::MAX as u128 {
            total as u64
        } else {
            u64::MAX
        };
        let refused: u64 = if report.refused.is_some() {
            1
        } else {
            0
        };
        let recompiled: u64 = if report.routing_recompiled {
            1
        } else {
            0
        };
        self.counters.reconciliations = self.counters.reconciliations.wrapping_add(1);
        self.counters.reconciliation_total_nanos =
            self.counters.reconciliation_total_nanos.wrapping_add(nanos);
        if self.counters.reconciliation_max_nanos < nanos {
            self.counters.reconciliation_max_nanos = nanos;
        }
        self.counters.view_delta_ops =
            self.counters.view_delta_ops.wrapping_add(report.delta_len as u64);
        self.counters.refused_publications =
            self.counters.refused_publications.wrapping_add(refused);
        self.counters.routing_recompiles =
            self.counters.routing_recompiles.wrapping_add(recompiled);
    }

    /// All counters.
    pub fn snapshot(&self) -> (snapshot: ActorSnapshot)
        ensures
            snapshot == self@,
    {
        self.counters
    }
}

} // verus!

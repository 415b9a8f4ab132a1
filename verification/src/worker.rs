//! One scan worker as a state machine: it names the port to probe next and
//! takes the outcome of each probe; whoever drives it makes the connections.

use vstd::prelude::*;
use vstd::arithmetic::div_mod::lemma_mod_bound;
use crate::partition::first_port;
use crate::partition::lemma_partition_increasing;
use crate::partition::lemma_partitions_cover;
use crate::partition::lemma_partitions_disjoint;
use crate::partition::lemma_stride_index;
use crate::partition::lemma_stride_skip;
use crate::partition::next_port;
use crate::partition::partition;

verus! {

/// The sign of progress that is written for each open port as it is found.
pub const PROGRESS_MARK: char = '.';

/// What a connection attempt to one port showed.
#[derive(Clone, Copy, Debug, PartialEq, Eq, Structural)]
pub enum ProbeOutcome {
    /// The connection was established.
    Open,
    /// The connection was refused, timed out or failed in any other way.
    Closed,
}

/// What a worker asks its driver to do next.
#[derive(Clone, Copy, Debug, PartialEq, Eq, Structural)]
pub enum WorkerAction {
    /// Attempt a connection to this port and hand the outcome to `record`.
    Probe(u16),
    /// The worker's ports are exhausted.
    Finish,
}

/// The outcome of a connection attempt: `Open` when it succeeded, `Closed`
/// for every kind of failure.
pub fn classify(connected: bool) -> (outcome: ProbeOutcome)
    ensures
        outcome == (if connected {
            ProbeOutcome::Open
        } else {
            ProbeOutcome::Closed
        }),
{
    if connected {
        ProbeOutcome::Open
    } else {
        ProbeOutcome::Closed
    }
}

/// The ports that worker `worker` of `count` passes on, in order, when
/// exactly the ports of `open` accept connections.
pub open spec fn findings(worker: int, count: int, open: Set<u16>) -> Seq<u16> {
    partition(worker, count).filter(|port: u16| open.contains(port))
}

/// A worker finds a port exactly when the port is open and belongs to it.
pub proof fn lemma_findings_contain(worker: int, count: int, open: Set<u16>, port: u16)
    requires
        0 <= worker < count,
    ensures
        findings(worker, count, open).contains(port) <==> open.contains(port) && partition(
            worker,
            count,
        ).contains(port),
{
    let share = partition(worker, count);
    let wanted = |port: u16| open.contains(port);
    if findings(worker, count, open).contains(port) {
        let found = share.filter(wanted);
        let i = choose|i: int| 0 <= i < found.len() && found[i] == port;
        share.lemma_filter_pred(wanted, i);
        share.lemma_filter_contains_rev(wanted, port);
    }
    if open.contains(port) && share.contains(port) {
        let i = choose|i: int| 0 <= i < share.len() && share[i] == port;
        share.lemma_filter_contains(wanted, i);
    }
}

/// Keeping some ports of a strictly increasing sequence leaves a strictly
/// increasing sequence.
pub proof fn lemma_filter_increasing(ports: Seq<u16>, keep: spec_fn(u16) -> bool)
    requires
        forall|i: int, j: int| 0 <= i < j < ports.len() ==> ports[i] < ports[j],
    ensures
        forall|i: int, j: int|
            0 <= i < j < ports.filter(keep).len() ==> ports.filter(keep)[i] < ports.filter(keep)[j],
    decreases ports.len(),
{
    reveal(Seq::filter);
    if ports.len() > 0 {
        let rest = ports.drop_last();
        lemma_filter_increasing(rest, keep);
        let kept = rest.filter(keep);
        assert forall|i: int| 0 <= i < kept.len() implies kept[i] < ports.last() by {
            assert(kept.contains(kept[i]));
            rest.lemma_filter_contains_rev(keep, kept[i]);
            let k = choose|k: int| 0 <= k < rest.len() && rest[k] == kept[i];
            assert(ports[k] < ports[ports.len() - 1]);
        }
    }
}

/// What a worker finds is strictly increasing, so it finds no port twice.
pub proof fn lemma_findings_increasing(worker: int, count: int, open: Set<u16>)
    requires
        0 <= worker < count,
    ensures
        forall|i: int, j: int|
            0 <= i < j < findings(worker, count, open).len() ==> findings(worker, count, open)[i]
                < findings(worker, count, open)[j],
{
    let share = partition(worker, count);
    assert forall|i: int, j: int| 0 <= i < j < share.len() implies share[i] < share[j] by {
        lemma_partition_increasing(worker, count, i, j);
    }
    lemma_filter_increasing(share, |port: u16| open.contains(port));
}

/// Whatever the number of workers, a scan finds exactly the open ports from 1
/// upwards: each of them is found by the worker that it belongs to and by no
/// other, and nothing else is found.
pub proof fn lemma_scan_finds_open_ports(count: int, open: Set<u16>, port: u16)
    requires
        1 <= count,
    ensures
        (exists|worker: int|
            0 <= worker < count && #[trigger] findings(worker, count, open).contains(port)) <==> (
        open.contains(port) && port >= 1),
        forall|first: int, second: int|
            0 <= first < count && 0 <= second < count && #[trigger] findings(
                first,
                count,
                open,
            ).contains(port) && #[trigger] findings(second, count, open).contains(port) ==> first
                == second,
{
    lemma_partitions_cover(count, port);
    if open.contains(port) && port >= 1 {
        let owner = (port - 1) % count;
        lemma_mod_bound(port - 1, count);
        lemma_findings_contain(owner, count, open, port);
    }
    assert forall|worker: int| 0 <= worker < count implies (#[trigger] findings(
        worker,
        count,
        open,
    ).contains(port) <==> open.contains(port) && partition(worker, count).contains(port)) by {
        lemma_findings_contain(worker, count, open, port);
    }
    assert forall|first: int, second: int|
        0 <= first < count && 0 <= second < count && #[trigger] findings(
            first,
            count,
            open,
        ).contains(port) && #[trigger] findings(second, count, open).contains(port) implies first
        == second by {
        if first != second {
            lemma_partitions_disjoint(first, second, count, port);
        }
    }
}

/// A worker that walks through its share of the ports, one probe at a time.
#[derive(Clone, Copy, Debug)]
pub struct ScanWorker {
    worker: u32,
    count: u32,
    probed: u32,
    cursor: Option<u16>,
}

impl ScanWorker {
    /// The worker's number among the workers of the scan.
    pub closed spec fn id(&self) -> int {
        self.worker as int
    }

    /// The number of workers among which the ports are divided.
    pub closed spec fn total(&self) -> int {
        self.count as int
    }

    /// How many of its ports the worker has dealt with.
    pub closed spec fn done(&self) -> int {
        self.probed as int
    }

    /// All ports of this worker, in scanning order.
    pub open spec fn share(&self) -> Seq<u16> {
        partition(self.id(), self.total())
    }

    /// The ports that the worker has still to probe, in order.
    pub open spec fn remaining(&self) -> Seq<u16> {
        self.share().skip(self.done())
    }

    /// The worker stands at a position of its own share.
    #[verifier::type_invariant]
    spec fn wf(&self) -> bool {
        &&& self.worker < self.count
        &&& 0 <= self.done() <= self.share().len()
        &&& self.cursor == (if self.done() < self.share().len() {
            Some(self.share()[self.done()])
        } else {
            None::<u16>
        })
    }

    /// A worker at the start of its share.
    pub fn new(worker: u32, count: u32) -> (fresh: ScanWorker)
        requires
            worker < count,
        ensures
            fresh.id() == worker,
            fresh.total() == count,
            fresh.done() == 0,
            fresh.remaining() == partition(worker as int, count as int),
    {
        let fresh = ScanWorker { worker, count, probed: 0, cursor: first_port(worker, count) };
        proof {
            assert(fresh.share().skip(0) =~= fresh.share());
        }
        fresh
    }

    /// The worker's number.
    pub fn worker_id(&self) -> (id: u32)
        ensures
            id == self.id(),
    {
        self.worker
    }

    /// The number of workers.
    pub fn worker_count(&self) -> (count: u32)
        ensures
            count == self.total(),
    {
        self.count
    }

    /// How many ports the worker has dealt with.
    pub fn probed(&self) -> (probed: u32)
        ensures
            probed == self.done(),
    {
        self.probed
    }

    /// What to do next: probe the first remaining port, or finish when none
    /// remains.
    pub fn next_action(&self) -> (action: WorkerAction)
        ensures
            action == (if self.remaining().len() > 0 {
                WorkerAction::Probe(self.remaining()[0])
            } else {
                WorkerAction::Finish
            }),
    {
        proof {
            use_type_invariant(self);
        }
        match self.cursor {
            Some(port) => WorkerAction::Probe(port),
            None => WorkerAction::Finish,
        }
    }

    /// Takes the outcome of the probe of the first remaining port and moves
    /// on to the next. Returns the port when it was open, for the driver to
    /// pass on, and nothing when it was closed. A worker with no port left
    /// stays as it is and returns nothing.
    pub fn record(&mut self, outcome: ProbeOutcome) -> (found: Option<u16>)
        ensures
            final(self).id() == old(self).id(),
            final(self).total() == old(self).total(),
            old(self).remaining().len() > 0 ==> {
                &&& final(self).done() == old(self).done() + 1
                &&& final(self).remaining() == old(self).remaining().skip(1)
                &&& found == (if outcome == ProbeOutcome::Open {
                    Some(old(self).remaining()[0])
                } else {
                    None::<u16>
                })
            },
            old(self).remaining().len() == 0 ==> *final(self) == *old(self) && found.is_none(),
    {
        proof {
            use_type_invariant(&*self);
        }
        match self.cursor {
            None => None,
            Some(port) => {
                proof {
                    let start = self.id() + 1;
                    lemma_stride_index(start, self.total(), self.done());
                    lemma_stride_skip(start, self.total(), self.done());
                    assert(self.remaining().skip(1) =~= self.share().skip(self.done() + 1));
                    assert(self.share().len() <= 65535) by {
                        if self.share().len() > 0 {
                            lemma_stride_index(start, self.total(), self.share().len() - 1);
                            assert((self.share().len() - 1) * self.total() >= self.share().len() - 1)
                                by (nonlinear_arith)
                                requires
                                    self.share().len() - 1 >= 0,
                                    self.total() >= 1,
                            ;
                        }
                    }
                }
                let cursor = next_port(port, self.count);
                *self = ScanWorker {
                    worker: self.worker,
                    count: self.count,
                    probed: self.probed + 1,
                    cursor,
                };
                match outcome {
                    ProbeOutcome::Open => Some(port),
                    ProbeOutcome::Closed => None,
                }
            },
        }
    }
}

} // verus!

//! The coordinator of a scan: it hands out the workers, one for each number
//! below the worker count, takes in the open ports that they find, and
//! reports them when all is done.

use vstd::prelude::*;
use vstd::relations::sorted_by;
use vstd::seq_lib::lemma_sorted_unique;
use crate::config::ScanConfig;
use crate::partition::partition;
use crate::report::ascending;
use crate::report::lemma_port_order_total;
use crate::report::port_leq;
use crate::report::rendered;
use crate::report::report;
use crate::worker::findings;
use crate::worker::lemma_findings_increasing;
use crate::worker::lemma_scan_finds_open_ports;
use crate::worker::ScanWorker;

verus! {

/// The result of a scan does not depend on the number of workers. When the
/// coordinator has taken in, once each and in whatever order, the ports that
/// the workers found, it reports what a single worker finds: the open ports
/// from 1 upwards, ascending.
pub proof fn lemma_report_same_for_any_worker_count(
    count: int,
    open: Set<u16>,
    collected: Seq<u16>,
)
    requires
        1 <= count,
        collected.no_duplicates(),
        forall|port: u16| #[trigger]
            collected.contains(port) <==> exists|worker: int|
                0 <= worker < count && #[trigger] findings(worker, count, open).contains(port),
    ensures
        ascending(collected) == findings(0, 1, open),
        rendered(ascending(collected)) == rendered(findings(0, 1, open)),
{
    let single = findings(0, 1, open);
    lemma_findings_increasing(0, 1, open);
    assert(sorted_by(single, port_leq()));
    assert(single.no_duplicates());
    assert forall|port: u16| collected.contains(port) <==> single.contains(port) by {
        lemma_scan_finds_open_ports(count, open, port);
        lemma_scan_finds_open_ports(1, open, port);
    }
    collected.lemma_multiset_has_no_duplicates();
    single.lemma_multiset_has_no_duplicates();
    collected.to_multiset_ensures();
    single.to_multiset_ensures();
    assert forall|port: u16|
        collected.to_multiset().count(port) == single.to_multiset().count(port) by {
        assert(collected.contains(port) <==> single.contains(port));
    }
    assert(collected.to_multiset() =~= single.to_multiset());
    lemma_port_order_total();
    collected.lemma_sort_by_ensures(port_leq());
    lemma_sorted_unique(ascending(collected), single, port_leq());
}

/// The state of one scan between its workers and its report.
#[derive(Debug)]
pub struct Coordinator {
    count: u32,
    started: u32,
    found: Vec<u16>,
}

impl Coordinator {
    /// The number of workers of the scan.
    pub closed spec fn total(&self) -> int {
        self.count as int
    }

    /// How many workers were handed out; they are those numbered below.
    pub closed spec fn handed_out(&self) -> int {
        self.started as int
    }

    /// The open ports taken in so far, in the order in which they came.
    pub closed spec fn collected(&self) -> Seq<u16> {
        self.found@
    }

    /// The coordinator of a scan with the given configuration: no worker is
    /// handed out yet and no port taken in.
    pub fn new(config: &ScanConfig) -> (fresh: Coordinator)
        ensures
            fresh.total() == config.worker_total(),
            fresh.total() >= 1,
            fresh.handed_out() == 0,
            fresh.collected() == Seq::<u16>::empty(),
    {
        Coordinator { count: config.workers(), started: 0, found: Vec::new() }
    }

    /// Hands out the next worker, at the start of its share: the one with the
    /// lowest number not handed out yet. Returns nothing once each worker of
    /// the scan was handed out, and then changes nothing.
    pub fn spawn_next(&mut self) -> (worker: Option<ScanWorker>)
        ensures
            final(self).total() == old(self).total(),
            final(self).collected() == old(self).collected(),
            old(self).handed_out() < old(self).total() ==> {
                &&& final(self).handed_out() == old(self).handed_out() + 1
                &&& worker matches Some(fresh) && fresh.id() == old(self).handed_out()
                    && fresh.total() == old(self).total() && fresh.done() == 0
                    && fresh.remaining() == partition(old(self).handed_out(), old(self).total())
            },
            old(self).handed_out() >= old(self).total() ==> worker.is_none()
                && final(self).handed_out() == old(self).handed_out(),
    {
        if self.started < self.count {
            let fresh = ScanWorker::new(self.started, self.count);
            self.started = self.started + 1;
            Some(fresh)
        } else {
            None
        }
    }

    /// Takes in one open port that a worker found.
    pub fn collect(&mut self, port: u16)
        ensures
            final(self).total() == old(self).total(),
            final(self).handed_out() == old(self).handed_out(),
            final(self).collected() == old(self).collected().push(port),
    {
        self.found.push(port);
    }

    /// How many open ports were taken in.
    pub fn collected_count(&self) -> (count: usize)
        ensures
            count == self.collected().len(),
    {
        self.found.len()
    }

    /// The report of the scan: what was taken in, ascending, one line each
    /// after a blank line.
    pub fn finish(self) -> (text: String)
        ensures
            text@ == rendered(ascending(self.collected())),
    {
        report(self.found)
    }
}

} // verus!

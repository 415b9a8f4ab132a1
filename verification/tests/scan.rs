use portscan::config::ScanConfig;
use portscan::coordinator::Coordinator;
use portscan::worker::classify;
use portscan::worker::ProbeOutcome;
use portscan::worker::PROGRESS_MARK;
use portscan::worker::ScanWorker;
use portscan::worker::WorkerAction;

fn run(workers: u32, open: &[u16]) -> (String, usize) {
    let config = ScanConfig::new("127.0.0.1".to_string(), workers).unwrap();
    let mut coordinator = Coordinator::new(&config);
    let mut probes = 0usize;
    let mut next_id = 0u32;
    while let Some(mut worker) = coordinator.spawn_next() {
        assert_eq!(worker.worker_id(), next_id);
        assert_eq!(worker.worker_count(), workers);
        next_id += 1;
        while let WorkerAction::Probe(port) = worker.next_action() {
            probes += 1;
            if let Some(found) = worker.record(classify(open.contains(&port))) {
                assert_eq!(found, port);
                coordinator.collect(found);
            }
        }
    }
    assert_eq!(next_id, workers);
    assert!(coordinator.spawn_next().is_none());
    assert_eq!(coordinator.collected_count(), open.iter().filter(|port| **port != 0).count());
    (coordinator.finish(), probes)
}

#[test]
fn progress_mark_is_a_dot() {
    assert_eq!(PROGRESS_MARK, '.');
}

#[test]
fn classify_maps_connection_to_outcome() {
    assert_eq!(classify(true), ProbeOutcome::Open);
    assert_eq!(classify(false), ProbeOutcome::Closed);
}

#[test]
fn worker_walks_its_share() {
    let mut worker = ScanWorker::new(1, 4);
    assert_eq!(worker.worker_id(), 1);
    assert_eq!(worker.worker_count(), 4);
    assert_eq!(worker.probed(), 0);
    assert_eq!(worker.next_action(), WorkerAction::Probe(2));
    assert_eq!(worker.record(ProbeOutcome::Open), Some(2));
    assert_eq!(worker.next_action(), WorkerAction::Probe(6));
    assert_eq!(worker.record(ProbeOutcome::Closed), None);
    assert_eq!(worker.next_action(), WorkerAction::Probe(10));
    assert_eq!(worker.probed(), 2);
}

#[test]
fn worker_goes_on_after_an_open_port_and_finishes_at_the_end() {
    let mut worker = ScanWorker::new(0, 4);
    let mut found = Vec::new();
    let mut probes = 0;
    while let WorkerAction::Probe(port) = worker.next_action() {
        probes += 1;
        if let Some(open) = worker.record(classify(port == 1 || port == 65533)) {
            found.push(open);
        }
    }
    assert_eq!(probes, 16384);
    assert_eq!(worker.probed(), 16384);
    assert_eq!(found, vec![1, 65533]);
    assert_eq!(worker.next_action(), WorkerAction::Finish);
    assert_eq!(worker.record(ProbeOutcome::Open), None);
    assert_eq!(worker.probed(), 16384);
    assert_eq!(worker.next_action(), WorkerAction::Finish);
}

#[test]
fn worker_beyond_the_ports_has_nothing_to_do() {
    let mut worker = ScanWorker::new(65535, 70000);
    assert_eq!(worker.next_action(), WorkerAction::Finish);
    assert_eq!(worker.record(ProbeOutcome::Open), None);
    let mut last = ScanWorker::new(65534, 70000);
    assert_eq!(last.next_action(), WorkerAction::Probe(65535));
    assert_eq!(last.record(ProbeOutcome::Open), Some(65535));
    assert_eq!(last.next_action(), WorkerAction::Finish);
}

#[test]
fn scan_finds_the_open_ports_whatever_the_worker_count() {
    for workers in [1u32, 4, 16] {
        let (text, probes) = run(workers, &[1025, 2048, 65000]);
        assert_eq!(text, "\n1025 is open\n2048 is open\n65000 is open\n");
        assert_eq!(probes, 65535);
    }
}

#[test]
fn scan_twice_gives_the_same_report() {
    let first = run(4, &[22, 80, 443, 65535, 1]);
    let second = run(4, &[22, 80, 443, 65535, 1]);
    assert_eq!(first, second);
    assert_eq!(first.0, "\n1 is open\n22 is open\n80 is open\n443 is open\n65535 is open\n");
}

#[test]
fn scan_with_nothing_open_reports_a_blank_line() {
    for workers in [1u32, 4, 70000] {
        let (text, probes) = run(workers, &[]);
        assert_eq!(text, "\n");
        assert_eq!(probes, 65535);
    }
}

#[test]
fn scan_reaches_both_boundary_ports() {
    for workers in [1u32, 3, 4, 65535] {
        let (text, _) = run(workers, &[65535, 1]);
        assert_eq!(text, "\n1 is open\n65535 is open\n");
    }
}

#[test]
fn coordinator_reports_what_it_collected() {
    let config = ScanConfig::new("::1".to_string(), 2).unwrap();
    let mut coordinator = Coordinator::new(&config);
    assert_eq!(coordinator.collected_count(), 0);
    coordinator.collect(8080);
    coordinator.collect(22);
    assert_eq!(coordinator.collected_count(), 2);
    assert_eq!(coordinator.finish(), "\n22 is open\n8080 is open\n");
}

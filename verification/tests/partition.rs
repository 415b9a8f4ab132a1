use portscan::partition::assign;
use portscan::partition::first_port;
use portscan::partition::next_port;
use portscan::partition::owner_of;
use portscan::partition::MAX_PORT;

fn coverage(count: u32) -> Vec<u32> {
    let mut seen = vec![0u32; 65536];
    for worker in 0..count {
        for port in assign(worker, count) {
            seen[port as usize] += 1;
        }
    }
    seen
}

fn assert_exact_cover(count: u32) {
    let seen = coverage(count);
    assert_eq!(seen[0], 0);
    for port in 1..=65535usize {
        assert_eq!(seen[port], 1, "port {} with {} workers", port, count);
    }
}

#[test]
fn highest_port_is_65535() {
    assert_eq!(MAX_PORT, 65535);
}

#[test]
fn single_worker_scans_every_port_in_order() {
    let ports = assign(0, 1);
    assert_eq!(ports.len(), 65535);
    assert_eq!(ports[0], 1);
    assert_eq!(ports[65534], 65535);
    for i in 1..ports.len() {
        assert_eq!(ports[i], ports[i - 1] + 1);
    }
}

#[test]
fn four_workers_take_every_fourth_port() {
    let first = assign(0, 4);
    assert_eq!(&first[..4], &[1, 5, 9, 13]);
    assert_eq!(first.len(), 16384);
    assert_eq!(*first.last().unwrap(), 65533);
    let last = assign(3, 4);
    assert_eq!(&last[..3], &[4, 8, 12]);
    assert_eq!(last.len(), 16383);
    assert_eq!(*last.last().unwrap(), 65532);
    let third = assign(2, 4);
    assert_eq!(third.len(), 16384);
    assert_eq!(*third.last().unwrap(), 65535);
}

#[test]
fn partitions_cover_each_port_once_for_small_counts() {
    for count in [1u32, 2, 3, 4, 7, 16] {
        assert_exact_cover(count);
    }
}

#[test]
fn partitions_cover_each_port_once_for_large_counts() {
    for count in [255u32, 256, 32768, 65534, 65535] {
        assert_exact_cover(count);
    }
}

#[test]
fn more_workers_than_ports_leave_some_without_work() {
    assert_exact_cover(65536);
    assert_eq!(assign(65534, 70000), vec![65535]);
    assert_eq!(assign(65535, 70000), Vec::<u16>::new());
    assert_eq!(assign(69999, 70000), Vec::<u16>::new());
    assert_eq!(first_port(65535, 70000), None);
    assert_eq!(first_port(4_000_000_000, u32::MAX), None);
}

#[test]
fn partitions_are_strictly_increasing() {
    for count in [1u32, 4, 16, 1000] {
        for worker in [0, count / 2, count - 1] {
            let ports = assign(worker, count);
            for i in 1..ports.len() {
                assert!(ports[i - 1] < ports[i]);
            }
        }
    }
}

#[test]
fn boundary_ports_have_one_owner() {
    for count in [1u32, 2, 4, 16, 100, 65535] {
        let mut low = Vec::new();
        let mut high = Vec::new();
        for worker in 0..count {
            let ports = assign(worker, count);
            if ports.contains(&1) {
                low.push(worker);
            }
            if ports.contains(&65535) {
                high.push(worker);
            }
        }
        assert_eq!(low, vec![0]);
        assert_eq!(high, vec![65534 % count]);
        assert_eq!(owner_of(1, count), 0);
        assert_eq!(owner_of(65535, count), 65534 % count);
    }
}

#[test]
fn first_port_is_one_above_the_worker_number() {
    assert_eq!(first_port(0, 1), Some(1));
    assert_eq!(first_port(0, 4), Some(1));
    assert_eq!(first_port(3, 4), Some(4));
    assert_eq!(first_port(65534, 65535), Some(65535));
}

#[test]
fn next_port_steps_by_the_worker_count() {
    assert_eq!(next_port(1, 4), Some(5));
    assert_eq!(next_port(65531, 4), Some(65535));
    assert_eq!(next_port(65532, 4), None);
    assert_eq!(next_port(65534, 1), Some(65535));
    assert_eq!(next_port(65535, 1), None);
    assert_eq!(next_port(1, 65534), Some(65535));
    assert_eq!(next_port(1, 65535), None);
    assert_eq!(next_port(1, u32::MAX), None);
}

#[test]
fn owner_is_the_remainder_of_the_port_before() {
    assert_eq!(owner_of(1, 4), 0);
    assert_eq!(owner_of(4, 4), 3);
    assert_eq!(owner_of(5, 4), 0);
    assert_eq!(owner_of(1025, 16), 0);
    assert_eq!(owner_of(2048, 16), 15);
    assert_eq!(owner_of(65000, 70000), 64999);
    for port in [1u16, 80, 443, 8080, 65535] {
        for count in [1u32, 4, 16] {
            assert!(assign(owner_of(port, count), count).contains(&port));
        }
    }
}

//! Stride partition of the port space `1..=65535` among a number of workers.

use vstd::prelude::*;
use vstd::arithmetic::div_mod::lemma_fundamental_div_mod;
use vstd::arithmetic::div_mod::lemma_fundamental_div_mod_converse;
use vstd::arithmetic::div_mod::lemma_mod_bound;

verus! {

/// The highest TCP port.
pub const MAX_PORT: u16 = 65535;

/// How many ports `start, start + step, start + 2 * step, ...` lie at or below
/// the highest port.
pub open spec fn stride_len(start: int, step: int) -> nat {
    if start > 65535 || step <= 0 {
        0
    } else {
        ((65535 - start) / step + 1) as nat
    }
}

/// The ports `start, start + step, ...` up to the highest port, in order.
pub open spec fn stride(start: int, step: int) -> Seq<u16> {
    Seq::new(stride_len(start, step), |k: int| (start + k * step) as u16)
}

/// The ports that worker `worker` of `count` scans, in the order it scans them.
pub open spec fn partition(worker: int, count: int) -> Seq<u16> {
    stride(worker + 1, count)
}

/// Whether `port` is a valid port that belongs to worker `worker` of `count`.
pub open spec fn assigned(worker: int, count: int, port: int) -> bool {
    &&& 1 <= port <= 65535
    &&& 0 <= worker < count
    &&& (port - 1) % count == worker
}

/// Every index of a stride names a port between `start` and the highest port.
pub proof fn lemma_stride_index(start: int, step: int, k: int)
    requires
        1 <= start,
        1 <= step,
        0 <= k < stride_len(start, step),
    ensures
        start <= start + k * step <= 65535,
        stride(start, step)[k] == start + k * step,
{
    let span = 65535 - start;
    lemma_fundamental_div_mod(span, step);
    lemma_mod_bound(span, step);
    assert(k * step <= (span / step) * step) by (nonlinear_arith)
        requires
            0 <= k <= span / step,
            1 <= step,
    ;
    assert(0 <= k * step) by (nonlinear_arith)
        requires
            0 <= k,
            1 <= step,
    ;
    assert(step * (span / step) == (span / step) * step) by (nonlinear_arith);
}

/// A stride without its first port is the stride that starts one step later.
pub proof fn lemma_stride_tail(start: int, step: int)
    requires
        1 <= start <= 65535,
        1 <= step,
    ensures
        stride(start, step).len() >= 1,
        stride(start, step)[0] == start,
        stride(start, step).skip(1) == stride(start + step, step),
{
    let span = 65535 - start;
    lemma_fundamental_div_mod(span, step);
    lemma_mod_bound(span, step);
    assert(span / step >= 0) by (nonlinear_arith)
        requires
            span >= 0,
            step >= 1,
            span == step * (span / step) + span % step,
            0 <= span % step < step,
    ;
    lemma_stride_index(start, step, 0);
    let rest = stride(start + step, step);
    let tail = stride(start, step).skip(1);
    if start + step > 65535 {
        assert(span / step == 0) by (nonlinear_arith)
            requires
                0 <= span < step,
                span == step * (span / step) + span % step,
                0 <= span % step < step,
        ;
    } else {
        assert(span - step == (span / step - 1) * step + span % step) by (nonlinear_arith)
            requires
                span == step * (span / step) + span % step,
        ;
        lemma_fundamental_div_mod_converse(span - step, step, span / step - 1, span % step);
    }
    assert(tail.len() == rest.len());
    assert forall|k: int| 0 <= k < tail.len() implies tail[k] == rest[k] by {
        assert(start + (k + 1) * step == start + step + k * step) by (nonlinear_arith);
    }
    assert(tail =~= rest);
}

/// A stride without its first `k` ports is the stride that starts `k` steps later.
pub proof fn lemma_stride_skip(start: int, step: int, k: int)
    requires
        1 <= start,
        1 <= step,
        0 <= k <= stride_len(start, step),
    ensures
        stride(start, step).skip(k) == stride(start + k * step, step),
    decreases k,
{
    let whole = stride(start, step);
    if k == 0 {
        assert(whole.skip(0) =~= whole);
        assert(start + 0 * step == start);
    } else {
        lemma_stride_skip(start, step, k - 1);
        lemma_stride_index(start, step, k - 1);
        let at = start + (k - 1) * step;
        lemma_stride_tail(at, step);
        assert(at + step == start + k * step) by (nonlinear_arith)
            requires
                at == start + (k - 1) * step,
        ;
        assert(whole.skip(k) =~= whole.skip(k - 1).skip(1));
    }
}

/// A port lies in a worker's sequence exactly when it is assigned to that worker.
pub proof fn lemma_partition_contains(worker: int, count: int, port: u16)
    requires
        0 <= worker < count,
    ensures
        partition(worker, count).contains(port) <==> assigned(worker, count, port as int),
{
    let seq = partition(worker, count);
    let start = worker + 1;
    if seq.contains(port) {
        let k = choose|k: int| 0 <= k < seq.len() && seq[k] == port;
        lemma_stride_index(start, count, k);
        lemma_fundamental_div_mod_converse(port - 1, count, k, worker);
    }
    if assigned(worker, count, port as int) {
        let q = (port - 1) / count;
        lemma_fundamental_div_mod(port - 1, count);
        assert(port - 1 == q * count + worker) by (nonlinear_arith)
            requires
                port - 1 == count * q + worker,
        ;
        assert(q >= 0) by (nonlinear_arith)
            requires
                port - 1 == q * count + worker,
                port - 1 >= worker,
                count >= 1,
        ;
        lemma_fundamental_div_mod(65535 - start, count);
        lemma_mod_bound(65535 - start, count);
        let top = (65535 - start) / count;
        assert(q <= top) by (nonlinear_arith)
            requires
                port - 1 == q * count + worker,
                65535 - (worker + 1) == count * top + (65535 - (worker + 1)) % count,
                0 <= (65535 - (worker + 1)) % count < count,
                port <= 65535,
                count >= 1,
        ;
        assert(start <= 65535);
        lemma_stride_index(start, count, q);
        assert(seq[q] == port);
    }
}

/// A worker's sequence is strictly increasing, so no port occurs in it twice.
pub proof fn lemma_partition_increasing(worker: int, count: int, i: int, j: int)
    requires
        0 <= worker < count,
        0 <= i < j < partition(worker, count).len(),
    ensures
        partition(worker, count)[i] < partition(worker, count)[j],
{
    lemma_stride_index(worker + 1, count, i);
    lemma_stride_index(worker + 1, count, j);
    assert(i * count < j * count) by (nonlinear_arith)
        requires
            i < j,
            count >= 1,
    ;
}

/// The sequences of two different workers have no port in common.
pub proof fn lemma_partitions_disjoint(first: int, second: int, count: int, port: u16)
    requires
        0 <= first < count,
        0 <= second < count,
        first != second,
    ensures
        !(partition(first, count).contains(port) && partition(second, count).contains(port)),
{
    lemma_partition_contains(first, count, port);
    lemma_partition_contains(second, count, port);
}

/// The sequences of all workers together hold exactly the ports `1..=65535`:
/// each such port lies in the sequence of one worker, and no other value lies
/// in any of them.
pub proof fn lemma_partitions_cover(count: int, port: u16)
    requires
        1 <= count,
    ensures
        (exists|worker: int| 0 <= worker < count && #[trigger] partition(worker, count).contains(port))
            <==> 1 <= port <= 65535,
        1 <= port <= 65535 ==> partition((port - 1) % count, count).contains(port),
{
    if 1 <= port {
        let owner = (port - 1) % count;
        lemma_mod_bound(port - 1, count);
        lemma_partition_contains(owner, count, port);
    }
    if exists|worker: int| 0 <= worker < count && #[trigger] partition(worker, count).contains(port) {
        let worker = choose|worker: int| 0 <= worker < count && #[trigger] partition(worker, count).contains(port);
        lemma_partition_contains(worker, count, port);
    }
}

/// The lowest and the highest port each belong to exactly one worker: port 1
/// to worker 0, port 65535 to worker `65534 % count`.
pub proof fn lemma_boundary_ports(count: int, worker: int)
    requires
        1 <= count,
        0 <= worker < count,
    ensures
        partition(worker, count).contains(1u16) <==> worker == 0,
        partition(worker, count).contains(65535u16) <==> worker == 65534int % count,
{
    lemma_partition_contains(worker, count, 1u16);
    lemma_partition_contains(worker, count, 65535u16);
    assert(0int % count == 0) by (nonlinear_arith)
        requires
            count >= 1,
    ;
}

/// The first port of worker `worker` of `count`, if it has any: `worker + 1`
/// unless that lies above the highest port.
pub fn first_port(worker: u32, count: u32) -> (port: Option<u16>)
    requires
        worker < count,
    ensures
        port == (if partition(worker as int, count as int).len() > 0 {
            Some(partition(worker as int, count as int)[0])
        } else {
            None
        }),
        port.is_some() <==> worker < 65535,
        port.is_some() ==> port.unwrap() == worker + 1,
{
    if worker < 65535 {
        proof {
            lemma_stride_tail(worker as int + 1, count as int);
        }
        Some((worker + 1) as u16)
    } else {
        None
    }
}

/// The port that follows `port` in a sequence with step `count`: `port + count`
/// unless that lies above the highest port.
pub fn next_port(port: u16, count: u32) -> (next: Option<u16>)
    requires
        1 <= port,
        1 <= count,
    ensures
        next == (if port + count <= 65535 {
            Some((port + count) as u16)
        } else {
            None
        }),
        next == (if stride(port as int, count as int).len() > 1 {
            Some(stride(port as int, count as int)[1])
        } else {
            None
        }),
{
    proof {
        let whole = stride(port as int, count as int);
        lemma_stride_tail(port as int, count as int);
        assert(whole.skip(1).len() == whole.len() - 1);
        if port + count <= 65535 {
            lemma_stride_tail(port as int + count as int, count as int);
            assert(whole.skip(1)[0] == whole[1]);
        }
    }
    if count <= (MAX_PORT - port) as u32 {
        Some(port + count as u16)
    } else {
        None
    }
}

/// The worker that scans `port` when there are `count` workers.
pub fn owner_of(port: u16, count: u32) -> (worker: u32)
    requires
        1 <= port,
        1 <= count,
    ensures
        worker == (port - 1) % (count as int),
        assigned(worker as int, count as int, port as int),
        partition(worker as int, count as int).contains(port),
{
    let worker = (port as u32 - 1) % count;
    proof {
        lemma_partition_contains(worker as int, count as int, port);
    }
    worker
}

/// All ports of worker `worker` of `count`, in the order in which it scans them.
pub fn assign(worker: u32, count: u32) -> (ports: Vec<u16>)
    requires
        worker < count,
    ensures
        ports@ == partition(worker as int, count as int),
{
    let mut ports: Vec<u16> = Vec::new();
    let mut cursor = first_port(worker, count);
    let ghost mut at: int = worker as int + 1;
    proof {
        assert(ports@ + stride(at, count as int) =~= partition(worker as int, count as int));
    }
    while cursor.is_some()
        invariant
            1 <= count,
            1 <= at,
            cursor.is_some() <==> at <= 65535,
            cursor.is_some() ==> cursor.unwrap() == at,
            ports@ + stride(at, count as int) == partition(worker as int, count as int),
        decreases 65536 + count - at,
    {
        let port = cursor.unwrap();
        proof {
            lemma_stride_tail(at, count as int);
            let whole = stride(at, count as int);
            assert(ports@.push(port) + whole.skip(1) =~= ports@ + whole);
            at = at + count;
        }
        ports.push(port);
        cursor = next_port(port, count);
    }
    proof {
        assert(stride(at, count as int) =~= Seq::<u16>::empty());
        assert(ports@ + Seq::<u16>::empty() =~= ports@);
    }
    ports
}

} // verus!

use vstd::prelude::*;
use vstd::arithmetic::div_mod::{lemma_fundamental_div_mod, lemma_mod_bound};
use vstd::arithmetic::mul::lemma_mul_inequality;

verus! {

/// One worker's assigned byte interval, inclusive on both ends.
pub struct WorkerRange {
    pub index: u64,
    pub start: u64,
    pub end: u64,
}

impl WorkerRange {
    /// Number of bytes this range covers.
    pub open spec fn spec_len(self) -> int {
        self.end - self.start + 1
    }

    /// Whether byte offset `k` of the resource falls inside this range.
    pub open spec fn contains(self, k: int) -> bool {
        self.start <= k <= self.end
    }

    /// Executable byte count of the range.
    pub fn len(&self) -> (n: u64)
        requires
            self.start <= self.end,
            self.spec_len() <= u64::MAX,
        ensures
            n == self.spec_len(),
    {
        self.end - self.start + 1
    }
}

/// How many workers actually receive a range: the requested count, clamped to
/// the total size so that every range created is non-empty. A size of zero
/// yields no ranges at all (nothing needs fetching).
pub open spec fn effective_workers(total_size: u64, worker_count: u64) -> int {
    if total_size < worker_count {
        total_size as int
    } else {
        worker_count as int
    }
}

/// Bytes assigned to each non-final worker: total size over effective worker
/// count, rounded down.
pub open spec fn spec_chunk_size(total_size: u64, worker_count: u64) -> int
    recommends
        effective_workers(total_size, worker_count) > 0,
{
    total_size as int / effective_workers(total_size, worker_count)
}

/// First byte of worker `i`'s range.
pub open spec fn spec_range_start(total_size: u64, worker_count: u64, i: int) -> int {
    i * spec_chunk_size(total_size, worker_count)
}

/// Last byte of worker `i`'s range; the final worker absorbs the remainder of
/// the integer division.
pub open spec fn spec_range_end(total_size: u64, worker_count: u64, i: int) -> int {
    if i == effective_workers(total_size, worker_count) - 1 {
        total_size - 1
    } else {
        (i + 1) * spec_chunk_size(total_size, worker_count) - 1
    }
}

/// The sequence `ranges` is exactly the download plan for `total_size` bytes
/// split across `worker_count` requested workers.
pub open spec fn is_plan_for(ranges: Seq<WorkerRange>, total_size: u64, worker_count: u64) -> bool {
    &&& ranges.len() == effective_workers(total_size, worker_count)
    &&& forall|i: int|
        0 <= i < ranges.len() ==> {
            &&& (#[trigger] ranges[i]).index == i
            &&& ranges[i].start == spec_range_start(total_size, worker_count, i)
            &&& ranges[i].end == spec_range_end(total_size, worker_count, i)
        }
}

/// Some range of the plan covers byte offset `k`.
pub open spec fn covers(ranges: Seq<WorkerRange>, k: int) -> bool {
    exists|i: int| 0 <= i < ranges.len() && (#[trigger] ranges[i]).contains(k)
}

/// Basic bounds shared by the planner and its lemmas: with at least one
/// effective worker, the chunk size is at least one byte and all `n` chunks
/// fit inside the total.
proof fn lemma_chunk_bounds(total_size: u64, worker_count: u64)
    requires
        worker_count >= 1,
        total_size >= 1,
    ensures
        1 <= spec_chunk_size(total_size, worker_count),
        effective_workers(total_size, worker_count) * spec_chunk_size(total_size, worker_count)
            <= total_size,
{
    let n = effective_workers(total_size, worker_count);
    let chunk = spec_chunk_size(total_size, worker_count);
    lemma_fundamental_div_mod(total_size as int, n);
    lemma_mod_bound(total_size as int, n);
    assert(n * chunk <= total_size);
    assert(n <= total_size);
    if chunk < 1 {
        assert(n * chunk <= 0) by {
            lemma_mul_inequality(chunk, 0, n);
            assert(chunk * n == n * chunk) by (nonlinear_arith);
            assert(0 * n == 0) by (nonlinear_arith);
        }
        assert(total_size as int == n * chunk + total_size as int % n);
        assert(total_size as int % n < n);
        assert(false);
    }
}

/// Compute the download plan: `worker_count` is clamped to `total_size`, each
/// worker `i` gets `[i * chunk, (i + 1) * chunk - 1]`, and the last worker's
/// range is extended to `total_size - 1` to absorb the remainder.
pub fn plan_ranges(total_size: u64, worker_count: u64) -> (ranges: Vec<WorkerRange>)
    requires
        worker_count >= 1,
    ensures
        is_plan_for(ranges@, total_size, worker_count),
        total_size == 0 ==> ranges@.len() == 0,
        total_size >= worker_count ==> ranges@.len() == worker_count,
{
    let n: u64 = if total_size < worker_count {
        total_size
    } else {
        worker_count
    };
    let mut ranges: Vec<WorkerRange> = Vec::new();
    if n == 0 {
        return ranges;
    }
    proof {
        lemma_chunk_bounds(total_size, worker_count);
    }
    let chunk: u64 = total_size / n;
    let mut i: u64 = 0;
    while i < n
        invariant
            worker_count >= 1,
            1 <= n <= total_size,
            n == effective_workers(total_size, worker_count),
            chunk == spec_chunk_size(total_size, worker_count),
            1 <= chunk,
            n * (chunk as int) <= total_size,
            i <= n,
            ranges@.len() == i,
            forall|j: int|
                0 <= j < i ==> {
                    &&& (#[trigger] ranges@[j]).index == j
                    &&& ranges@[j].start == spec_range_start(total_size, worker_count, j)
                    &&& ranges@[j].end == spec_range_end(total_size, worker_count, j)
                },
        decreases n - i,
    {
        proof {
            lemma_mul_inequality(i as int + 1, n as int, chunk as int);
            lemma_mul_inequality(i as int, i as int + 1, chunk as int);
            assert((i as int + 1) * (chunk as int) == i as int * (chunk as int) + chunk) by (nonlinear_arith);
        }
        let start: u64 = i * chunk;
        let end: u64 = if i == n - 1 {
            total_size - 1
        } else {
            (i + 1) * chunk - 1
        };
        ranges.push(WorkerRange { index: i, start, end });
        proof {
            assert(start == spec_range_start(total_size, worker_count, i as int));
            assert(end == spec_range_end(total_size, worker_count, i as int));
        }
        i = i + 1;
    }
    ranges
}

/// Shape of any non-empty plan, clamped or not: ranges are non-empty,
/// contiguous, start at byte zero, stay below the total size, and the last
/// one ends at `total_size - 1`.
pub proof fn lemma_plan_shape(ranges: Seq<WorkerRange>, total_size: u64, worker_count: u64)
    requires
        worker_count >= 1,
        total_size >= 1,
        is_plan_for(ranges, total_size, worker_count),
    ensures
        1 <= ranges.len() <= total_size,
        ranges[0].start == 0,
        forall|i: int|
            0 < i < ranges.len() ==> (#[trigger] ranges[i]).start == ranges[i - 1].end + 1,
        forall|i: int| 0 <= i < ranges.len() ==> (#[trigger] ranges[i]).start <= ranges[i].end,
        forall|i: int| 0 <= i < ranges.len() ==> (#[trigger] ranges[i]).end < total_size,
        ranges[ranges.len() - 1].end == total_size - 1,
{
    let n = effective_workers(total_size, worker_count);
    let chunk = spec_chunk_size(total_size, worker_count);
    lemma_chunk_bounds(total_size, worker_count);

    assert forall|i: int| 0 <= i < ranges.len() implies (#[trigger] ranges[i]).start
        <= ranges[i].end by {
        lemma_mul_inequality(i + 1, n, chunk);
        assert((i + 1) * chunk == i * chunk + chunk) by (nonlinear_arith);
    }

    assert forall|i: int| 0 < i < ranges.len() implies (#[trigger] ranges[i]).start == ranges[i
        - 1].end + 1 by {
        assert(i * chunk == (i - 1 + 1) * chunk);
    }

    assert forall|i: int| 0 <= i < ranges.len() implies (#[trigger] ranges[i]).end
        < total_size by {
        lemma_mul_inequality(i + 1, n, chunk);
    }
}

/// Partition correctness: when the requested worker count is at most the total
/// size, the plan has exactly `worker_count` ranges whose union is
/// `[0, total_size - 1]`, without gaps or overlaps, each range non-empty,
/// contiguous with its predecessor, and the last range ending at
/// `total_size - 1`.
pub proof fn lemma_plan_partition(ranges: Seq<WorkerRange>, total_size: u64, worker_count: u64)
    requires
        1 <= worker_count <= total_size,
        is_plan_for(ranges, total_size, worker_count),
    ensures
        ranges.len() == worker_count,
        ranges[0].start == 0,
        forall|i: int|
            0 < i < ranges.len() ==> (#[trigger] ranges[i]).start == ranges[i - 1].end + 1,
        forall|i: int| 0 <= i < ranges.len() ==> (#[trigger] ranges[i]).start <= ranges[i].end,
        ranges[ranges.len() - 1].end == total_size - 1,
        forall|k: int| 0 <= k < total_size ==> covers(ranges, k),
        forall|i: int, j: int, k: int|
            0 <= i < ranges.len() && 0 <= j < ranges.len() && ranges[i].contains(k)
                && ranges[j].contains(k) ==> i == j,
{
    let n = effective_workers(total_size, worker_count);
    let chunk = spec_chunk_size(total_size, worker_count);
    lemma_chunk_bounds(total_size, worker_count);
    lemma_plan_shape(ranges, total_size, worker_count);

    assert forall|k: int| 0 <= k < total_size implies covers(ranges, k) by {
        lemma_fundamental_div_mod(k, chunk);
        lemma_mod_bound(k, chunk);
        let c = k / chunk;
        assert(chunk * c == c * chunk) by (nonlinear_arith);
        assert(c * chunk + k % chunk == k);
        assert(c >= 0) by {
            if c < 0 {
                assert(c * chunk <= (-1) * chunk) by {
                    lemma_mul_inequality(c, -1, chunk);
                }
                assert((-1) * chunk == -chunk) by (nonlinear_arith);
            }
        }
        if c >= n - 1 {
            let i = n - 1;
            assert(ranges[i].start == i * chunk);
            assert(i * chunk <= c * chunk) by {
                lemma_mul_inequality(i, c, chunk);
            }
            assert(c * chunk <= k);
            assert(ranges[i].contains(k));
        } else {
            let i = c;
            assert(ranges[i].start == c * chunk);
            assert(ranges[i].end == (c + 1) * chunk - 1);
            assert(chunk * c == c * chunk) by (nonlinear_arith);
            assert((c + 1) * chunk == c * chunk + chunk) by (nonlinear_arith);
            assert(c * chunk <= k < (c + 1) * chunk);
            assert(ranges[i].contains(k));
        }
    }

    assert forall|i: int, j: int, k: int|
        0 <= i < ranges.len() && 0 <= j < ranges.len() && ranges[i].contains(k)
            && ranges[j].contains(k) implies i == j by {
        if i < j {
            lemma_plan_ordered(ranges, total_size, worker_count, i, j);
            assert(false);
        }
        if j < i {
            lemma_plan_ordered(ranges, total_size, worker_count, j, i);
            assert(false);
        }
    }
}

/// Ranges with smaller index end strictly before later ranges begin.
proof fn lemma_plan_ordered(ranges: Seq<WorkerRange>, total_size: u64, worker_count: u64, i: int, j: int)
    requires
        1 <= worker_count <= total_size,
        is_plan_for(ranges, total_size, worker_count),
        0 <= i < j < ranges.len(),
    ensures
        ranges[i].end < ranges[j].start,
{
    let n = effective_workers(total_size, worker_count);
    let chunk = spec_chunk_size(total_size, worker_count);
    lemma_chunk_bounds(total_size, worker_count);
    assert(i < n - 1);
    assert(ranges[i].end == (i + 1) * chunk - 1);
    assert(ranges[j].start == j * chunk);
    lemma_mul_inequality(i + 1, j, chunk);
}

} // verus!

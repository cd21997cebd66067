use vstd::prelude::*;
use crate::plan::WorkerRange;
use crate::plan::is_plan_for;
use crate::plan::lemma_plan_shape;

verus! {

/// Sum of a sequence of byte counters, as an unbounded integer.
pub open spec fn sum_of(s: Seq<u64>) -> int
    decreases s.len(),
{
    if s.len() == 0 {
        0
    } else {
        sum_of(s.drop_last()) + s.last()
    }
}

/// Extending a prefix sum by one element adds exactly that element.
pub proof fn lemma_sum_of_take_succ(s: Seq<u64>, i: int)
    requires
        0 <= i < s.len(),
    ensures
        sum_of(s.take(i + 1)) == sum_of(s.take(i)) + s[i],
{
    assert(s.take(i + 1).drop_last() =~= s.take(i));
    assert(s.take(i + 1).last() == s[i]);
}

/// A prefix never sums to more than the whole sequence.
pub proof fn lemma_sum_of_take_le(s: Seq<u64>, i: int)
    requires
        0 <= i <= s.len(),
    ensures
        sum_of(s.take(i)) <= sum_of(s),
    decreases s.len() - i,
{
    if i == s.len() {
        assert(s.take(i) =~= s);
    } else {
        lemma_sum_of_take_succ(s, i);
        lemma_sum_of_take_le(s, i + 1);
    }
}

/// Pointwise-bounded counters have a bounded sum.
pub proof fn lemma_sum_of_le(a: Seq<u64>, b: Seq<u64>)
    requires
        a.len() == b.len(),
        forall|i: int| 0 <= i < a.len() ==> a[i] <= b[i],
    ensures
        sum_of(a) <= sum_of(b),
    decreases a.len(),
{
    if a.len() > 0 {
        lemma_sum_of_le(a.drop_last(), b.drop_last());
    }
}

/// Sum of the byte counts of a sequence of ranges.
pub open spec fn sum_range_lens(ranges: Seq<WorkerRange>) -> int
    decreases ranges.len(),
{
    if ranges.len() == 0 {
        0
    } else {
        sum_range_lens(ranges.drop_last()) + ranges.last().spec_len()
    }
}

/// The byte counts of a download plan sum to exactly the total size.
pub proof fn lemma_plan_lens_sum(ranges: Seq<WorkerRange>, total_size: u64, worker_count: u64)
    requires
        worker_count >= 1,
        is_plan_for(ranges, total_size, worker_count),
    ensures
        sum_range_lens(ranges) == total_size,
{
    if total_size == 0 {
        assert(ranges.len() == 0);
    } else {
        lemma_plan_shape(ranges, total_size, worker_count);
        lemma_prefix_lens(ranges, total_size, worker_count, ranges.len() as int);
        assert(ranges.take(ranges.len() as int) =~= ranges);
    }
}

/// The first `k` ranges of a plan cover exactly the bytes up to the end of
/// range `k - 1`.
proof fn lemma_prefix_lens(ranges: Seq<WorkerRange>, total_size: u64, worker_count: u64, k: int)
    requires
        worker_count >= 1,
        total_size >= 1,
        is_plan_for(ranges, total_size, worker_count),
        1 <= k <= ranges.len(),
    ensures
        sum_range_lens(ranges.take(k)) == ranges[k - 1].end + 1,
    decreases k,
{
    lemma_plan_shape(ranges, total_size, worker_count);
    assert(ranges.take(k).len() == k);
    assert(sum_range_lens(ranges.take(k)) == sum_range_lens(ranges.take(k).drop_last())
        + ranges.take(k).last().spec_len());
    assert(ranges.take(k).last() == ranges[k - 1]);
    if k == 1 {
        assert(ranges.take(1).drop_last() =~= Seq::<WorkerRange>::empty());
        assert(sum_range_lens(Seq::<WorkerRange>::empty()) == 0);
        assert(ranges[0].start == 0);
    } else {
        lemma_prefix_lens(ranges, total_size, worker_count, k - 1);
        assert(ranges.take(k).drop_last() =~= ranges.take(k - 1));
        assert(ranges[k - 1].start == ranges[k - 2].end + 1);
    }
}

/// Per-worker byte counters together with each worker's assigned byte budget.
/// Counters start at zero and only ever grow; each stays within its budget,
/// so the aggregate sum always fits in a machine word.
pub struct ProgressTracker {
    counters: Vec<u64>,
    limits: Vec<u64>,
}

impl ProgressTracker {
    /// The counter values, one per worker.
    pub closed spec fn counters(&self) -> Seq<u64> {
        self.counters@
    }

    /// The byte budget of each worker: the length of its assigned range.
    pub closed spec fn limits(&self) -> Seq<u64> {
        self.limits@
    }

    /// Well-formedness: one counter per budget, each counter within its
    /// budget, and the budgets' sum representable as a `u64`.
    pub open spec fn wf(&self) -> bool {
        &&& self.counters().len() == self.limits().len()
        &&& forall|i: int| 0 <= i < self.counters().len() ==> self.counters()[i] <= self.limits()[i]
        &&& sum_of(self.limits()) <= u64::MAX
    }

    /// Create the tracker for a download plan: one zeroed counter per worker,
    /// with that worker's range length as its budget.
    pub fn for_plan(ranges: &Vec<WorkerRange>, total_size: u64, worker_count: u64) -> (t: Self)
        requires
            worker_count >= 1,
            is_plan_for(ranges@, total_size, worker_count),
        ensures
            t.wf(),
            t.counters().len() == ranges@.len(),
            forall|i: int| 0 <= i < t.counters().len() ==> t.counters()[i] == 0,
            forall|i: int| 0 <= i < t.limits().len() ==> t.limits()[i] == ranges@[i].spec_len(),
            sum_of(t.limits()) == total_size,
    {
        proof {
            if total_size >= 1 {
                lemma_plan_shape(ranges@, total_size, worker_count);
            }
            lemma_plan_lens_sum(ranges@, total_size, worker_count);
        }
        let mut counters: Vec<u64> = Vec::new();
        let mut limits: Vec<u64> = Vec::new();
        let mut i: usize = 0;
        while i < ranges.len()
            invariant
                worker_count >= 1,
                is_plan_for(ranges@, total_size, worker_count),
                i <= ranges@.len(),
                counters@.len() == i,
                limits@.len() == i,
                forall|j: int| 0 <= j < i ==> counters@[j] == 0,
                forall|j: int| 0 <= j < i ==> limits@[j] == ranges@[j].spec_len(),
                forall|j: int|
                    0 <= j < ranges@.len() ==> (#[trigger] ranges@[j]).start <= ranges@[j].end
                        && ranges@[j].end < total_size,
            decreases ranges@.len() - i,
        {
            let r = &ranges[i];
            counters.push(0);
            limits.push(r.len());
            i = i + 1;
        }
        proof {
            lemma_sums_equal(limits@, ranges@);
            lemma_plan_lens_sum(ranges@, total_size, worker_count);
        }
        ProgressTracker { counters, limits }
    }

    /// Number of workers tracked.
    pub fn worker_count(&self) -> (n: usize)
        requires
            self.wf(),
        ensures
            n == self.counters().len(),
    {
        self.counters.len()
    }

    /// Read one worker's counter.
    pub fn get(&self, worker: usize) -> (n: u64)
        requires
            worker < self.counters().len(),
        ensures
            n == self.counters()[worker as int],
    {
        self.counters[worker]
    }

    /// Read one worker's byte budget.
    pub fn limit(&self, worker: usize) -> (n: u64)
        requires
            self.wf(),
            worker < self.counters().len(),
        ensures
            n == self.limits()[worker as int],
    {
        self.limits[worker]
    }

    /// Record `n` more bytes for `worker`. Only that worker's counter moves,
    /// and it moves up: counters are monotonically non-decreasing.
    pub fn record(&mut self, worker: usize, n: u64)
        requires
            old(self).wf(),
            worker < old(self).counters().len(),
            old(self).counters()[worker as int] + n <= old(self).limits()[worker as int],
        ensures
            final(self).wf(),
            final(self).limits() == old(self).limits(),
            final(self).counters() == old(self).counters().update(
                worker as int,
                (old(self).counters()[worker as int] + n) as u64,
            ),
            final(self).counters()[worker as int] >= old(self).counters()[worker as int],
            forall|i: int|
                0 <= i < final(self).counters().len() ==> final(self).counters()[i] >= old(
                    self,
                ).counters()[i],
    {
        let updated = self.counters[worker] + n;
        self.counters[worker] = updated;
        proof {
            assert(self.counters@ =~= old(self).counters@.update(worker as int, updated));
        }
    }

    /// Sum of all counters: the total bytes downloaded so far.
    pub fn aggregate(&self) -> (total: u64)
        requires
            self.wf(),
        ensures
            total == sum_of(self.counters()),
    {
        proof {
            lemma_sum_of_le(self.counters@, self.limits@);
        }
        let mut acc: u64 = 0;
        let mut i: usize = 0;
        while i < self.counters.len()
            invariant
                self.wf(),
                i <= self.counters@.len(),
                acc == sum_of(self.counters@.take(i as int)),
            decreases self.counters@.len() - i,
        {
            proof {
                lemma_sum_of_take_succ(self.counters@, i as int);
                lemma_sum_of_take_le(self.counters@, i as int + 1);
                lemma_sum_of_le(self.counters@, self.limits@);
            }
            acc = acc + self.counters[i];
            i = i + 1;
        }
        proof {
            assert(self.counters@.take(self.counters@.len() as int) =~= self.counters@);
        }
        acc
    }

    /// The reporter's stop decision: true exactly when the aggregate
    /// downloaded byte count has reached the full size. The reporting loop
    /// checks this once per polling interval and exits on the first true.
    pub fn is_complete(&self, total_size: u64) -> (done: bool)
        requires
            self.wf(),
        ensures
            done == (sum_of(self.counters()) >= total_size),
    {
        self.aggregate() >= total_size
    }
}

/// Budgets built slot-for-slot from range lengths sum like the ranges do.
proof fn lemma_sums_equal(limits: Seq<u64>, ranges: Seq<WorkerRange>)
    requires
        limits.len() == ranges.len(),
        forall|i: int| 0 <= i < limits.len() ==> limits[i] == ranges[i].spec_len(),
    ensures
        sum_of(limits) == sum_range_lens(ranges),
    decreases limits.len(),
{
    if limits.len() > 0 {
        lemma_sums_equal(limits.drop_last(), ranges.drop_last());
    }
}

/// Progress monotonicity, aggregate side: while every counter stays within
/// its worker's budget and the budgets sum to the total size, the aggregate
/// sum cannot exceed the total size.
pub proof fn lemma_aggregate_bounded(t: ProgressTracker, total_size: u64)
    requires
        t.wf(),
        sum_of(t.limits()) <= total_size,
    ensures
        sum_of(t.counters()) <= total_size,
{
    lemma_sum_of_le(t.counters(), t.limits());
}

/// Integer percentage `done * 100 / size`, rounded down; an empty denominator
/// counts as fully complete.
pub fn percent(done: u64, size: u64) -> (p: u64)
    requires
        done <= size,
    ensures
        size > 0 ==> p == done as int * 100 / size as int,
        size == 0 ==> p == 100,
        p <= 100,
{
    if size == 0 {
        100
    } else {
        let p128: u128 = (done as u128) * 100 / (size as u128);
        proof {
            assert(done as int * 100 <= size as int * 100) by (nonlinear_arith)
                requires done <= size;
            assert(size as int * 100 / size as int == 100) by (nonlinear_arith)
                requires size > 0;
            assert(done as int * 100 / size as int <= size as int * 100 / size as int) by {
                vstd::arithmetic::div_mod::lemma_div_is_ordered(
                    done as int * 100,
                    size as int * 100,
                    size as int,
                );
            }
        }
        p128 as u64
    }
}

} // verus!

//! The dispatcher's logic: validating a request, splitting it into equal
//! shares, and combining the workers' counts.

use crate::sampler::{count_inside, lemma_count_inside_concat};
use vstd::prelude::*;

verus! {

/// Why a request for a run was refused.
#[derive(Clone, Copy, Debug, PartialEq, Eq, Structural)]
pub enum InputError {
    /// The number of points or of workers is below one.
    NotPositive,
    /// More workers than points were asked for.
    TooManyWorkers,
}

/// A validated request: at least one worker, and no more workers than points.
#[derive(Clone, Copy, Debug)]
pub struct SampleRequest {
    total_points: u64,
    worker_count: u64,
}

impl SampleRequest {
    #[verifier::type_invariant]
    spec fn inv(self) -> bool {
        1 <= self.worker_count <= self.total_points <= i64::MAX
    }

    /// Points asked for.
    pub closed spec fn total(self) -> int {
        self.total_points as int
    }

    /// Workers asked for.
    pub closed spec fn workers(self) -> int {
        self.worker_count as int
    }

    /// Points asked for.
    pub fn total_points(&self) -> (r: u64)
        ensures
            r == self.total(),
            r >= 1,
    {
        proof {
            use_type_invariant(self);
        }
        self.total_points
    }

    /// Workers asked for.
    pub fn worker_count(&self) -> (r: u64)
        ensures
            r == self.workers(),
            1 <= r <= self.total(),
    {
        proof {
            use_type_invariant(self);
        }
        self.worker_count
    }

    /// Points given to each worker: `total / workers`, at least one.
    pub fn points_per_worker(&self) -> (r: u64)
        ensures
            r == share_of(self.total(), self.workers()),
            r >= 1,
    {
        proof {
            use_type_invariant(self);
            lemma_sampled_within_total(self.total(), self.workers());
        }
        self.total_points / self.worker_count
    }

    /// Points sampled by the whole run: `workers * (total / workers)`, which
    /// leaves out the remainder of the division.
    pub fn total_points_sampled(&self) -> (r: u64)
        ensures
            r == sampled_of(self.total(), self.workers()),
            1 <= r <= self.total(),
            self.total() - r < self.workers(),
    {
        proof {
            use_type_invariant(self);
            lemma_sampled_within_total(self.total(), self.workers());
            lemma_mul_le(1, self.workers(), share_of(self.total(), self.workers()));
        }
        self.worker_count * (self.total_points / self.worker_count)
    }

    /// Whether the points split into equal shares with nothing left over.
    pub fn is_evenly_divided(&self) -> (r: bool)
        ensures
            r == (self.total() % self.workers() == 0),
    {
        proof {
            use_type_invariant(self);
        }
        self.total_points % self.worker_count == 0
    }

    /// One task per worker, each with the same share `total / workers`.
    pub fn worker_tasks(&self) -> (r: Vec<WorkerTask>)
        ensures
            r@.len() == self.workers(),
            forall|i: int|
                0 <= i < r@.len() ==> (#[trigger] r@[i]).points_to_sample == share_of(
                    self.total(),
                    self.workers(),
                ),
    {
        let share = self.points_per_worker();
        let count = self.worker_count();
        let mut tasks: Vec<WorkerTask> = Vec::new();
        let mut i: u64 = 0;
        while i < count
            invariant
                i <= count,
                count == self.workers(),
                share == share_of(self.total(), self.workers()),
                tasks@.len() == i,
                forall|j: int| 0 <= j < i ==> (#[trigger] tasks@[j]).points_to_sample == share,
            decreases count - i,
        {
            tasks.push(WorkerTask { points_to_sample: share });
            i = i + 1;
        }
        tasks
    }

    /// Combines one result per worker, each within its share, into the counts
    /// of the run.
    pub fn aggregate(&self, results: &Vec<WorkerResult>) -> (r: AggregateResult)
        requires
            results_fit(results@, self.workers(), share_of(self.total(), self.workers())),
        ensures
            r.total_points_in_circle == sum_counts(results@),
            r.total_points_sampled == sampled_of(self.total(), self.workers()),
            1 <= r.total_points_sampled <= self.total(),
            r.total_points_in_circle <= r.total_points_sampled,
    {
        let share = self.points_per_worker();
        let sampled = self.total_points_sampled();
        let mut inside: u64 = 0;
        let mut i: usize = 0;
        while i < results.len()
            invariant
                i <= results@.len(),
                results_fit(results@, self.workers(), share as int),
                share == share_of(self.total(), self.workers()),
                sampled == sampled_of(self.total(), self.workers()),
                inside == sum_counts(results@.take(i as int)),
                inside <= i * share,
            decreases results@.len() - i,
        {
            let c = results[i].points_in_circle;
            assert(results@.take(i as int + 1).drop_last() =~= results@.take(i as int));
            proof {
                lemma_mul_succ(i as int, share as int);
                lemma_mul_le(i as int + 1, self.workers(), share as int);
            }
            inside = inside + c;
            i = i + 1;
        }
        assert(results@.take(i as int) =~= results@);
        proof {
            lemma_mul_le(i as int, self.workers(), share as int);
        }
        AggregateResult { total_points_in_circle: inside, total_points_sampled: sampled }
    }
}

/// Checks the numbers of points and of workers of a run: both must be at
/// least one, and there may be no more workers than points.
pub fn validate_input(number_of_points: i64, number_of_threads: i64) -> (r: Result<
    SampleRequest,
    InputError,
>)
    ensures
        (number_of_points < 1 || number_of_threads < 1) <==> r == Err::<SampleRequest, InputError>(
            InputError::NotPositive,
        ),
        (1 <= number_of_points < number_of_threads) <==> r == Err::<SampleRequest, InputError>(
            InputError::TooManyWorkers,
        ),
        r is Ok <==> 1 <= number_of_threads <= number_of_points,
        r matches Ok(q) ==> q.total() == number_of_points && q.workers() == number_of_threads,
{
    if number_of_points < 1 || number_of_threads < 1 {
        Err(InputError::NotPositive)
    } else if number_of_threads > number_of_points {
        Err(InputError::TooManyWorkers)
    } else {
        Ok(SampleRequest { total_points: number_of_points as u64, worker_count: number_of_threads as u64 })
    }
}

/// The share of one worker.
#[derive(Clone, Copy, Debug, PartialEq, Eq, Structural)]
pub struct WorkerTask {
    pub points_to_sample: u64,
}

/// What one worker found: how many of its points lie in the quarter disc.
#[derive(Clone, Copy, Debug, PartialEq, Eq, Structural)]
pub struct WorkerResult {
    pub points_in_circle: u64,
}

/// The combined counts of a run. The estimate of Pi is
/// `4 * total_points_in_circle / total_points_sampled`.
#[derive(Clone, Copy, Debug, PartialEq, Eq, Structural)]
pub struct AggregateResult {
    pub total_points_in_circle: u64,
    pub total_points_sampled: u64,
}

/// Points given to each worker: the integer quotient.
pub open spec fn share_of(total: int, workers: int) -> int {
    total / workers
}

/// Points sampled by the whole run; the remainder of the division is left out.
pub open spec fn sampled_of(total: int, workers: int) -> int {
    workers * share_of(total, workers)
}

/// Sum of the counts of `results`.
pub open spec fn sum_counts(results: Seq<WorkerResult>) -> int
    decreases results.len(),
{
    if results.len() == 0 {
        0
    } else {
        sum_counts(results.drop_last()) + results.last().points_in_circle
    }
}

/// Whether `results` holds one result per worker, each within its share.
pub open spec fn results_fit(results: Seq<WorkerResult>, workers: int, share: int) -> bool {
    &&& results.len() == workers
    &&& forall|i: int| 0 <= i < results.len() ==> (#[trigger] results[i]).points_in_circle <= share
}

proof fn lemma_mul_le(a: int, b: int, c: int)
    requires
        0 <= a <= b,
        0 <= c,
    ensures
        a * c <= b * c,
{
    assert(a * c <= b * c) by (nonlinear_arith)
        requires
            0 <= a <= b,
            0 <= c,
    ;
}

proof fn lemma_mul_succ(a: int, c: int)
    ensures
        (a + 1) * c == a * c + c,
{
    assert((a + 1) * c == a * c + c) by (nonlinear_arith);
}

/// Results within their shares add up to at most the share times their
/// number.
proof fn lemma_sum_counts_bounded(results: Seq<WorkerResult>, share: int)
    requires
        share >= 0,
        results_fit(results, results.len() as int, share),
    ensures
        0 <= sum_counts(results) <= results.len() * share,
    decreases results.len(),
{
    if results.len() > 0 {
        let rest = results.drop_last();
        assert(results_fit(rest, rest.len() as int, share)) by {
            assert forall|i: int| 0 <= i < rest.len() implies (#[trigger] rest[i]).points_in_circle
                <= share by {
                assert(rest[i] == results[i]);
            }
        }
        lemma_sum_counts_bounded(rest, share);
        lemma_mul_succ(rest.len() as int, share);
    }
}

/// The run samples `workers * (total / workers)` points, which is at most
/// `total` and misses fewer than `workers` of them; each worker gets at least
/// one point.
pub proof fn lemma_sampled_within_total(total: int, workers: int)
    requires
        1 <= workers <= total,
    ensures
        sampled_of(total, workers) == workers * (total / workers),
        sampled_of(total, workers) <= total,
        total - sampled_of(total, workers) < workers,
        share_of(total, workers) >= 1,
{
    vstd::arithmetic::div_mod::lemma_fundamental_div_mod(total, workers);
    vstd::arithmetic::div_mod::lemma_mod_bound(total, workers);
    vstd::arithmetic::div_mod::lemma_div_is_ordered(workers, total, workers);
    vstd::arithmetic::div_mod::lemma_div_by_self(workers);
}

/// When each worker finds at most its share, the points found in the disc are
/// at most the points sampled, and at least one point is sampled: the
/// estimate `4 * inside / sampled` lies between 0 and 4.
pub proof fn lemma_estimate_within_bounds(total: int, workers: int, results: Seq<WorkerResult>)
    requires
        1 <= workers <= total,
        results_fit(results, workers, share_of(total, workers)),
    ensures
        sampled_of(total, workers) >= 1,
        0 <= sum_counts(results) <= sampled_of(total, workers),
        0 <= 4 * sum_counts(results) <= 4 * sampled_of(total, workers),
{
    lemma_sampled_within_total(total, workers);
    lemma_sum_counts_bounded(results, share_of(total, workers));
    lemma_mul_le(1, workers, share_of(total, workers));
}

/// Cutting a run of `workers * share` points into consecutive shares and
/// adding the workers' counts gives the count of the whole run: splitting the
/// work among workers changes nothing in what is counted.
pub proof fn lemma_partition_preserves_count(
    pts: Seq<(u32, u32)>,
    workers: int,
    share: int,
    scale: int,
    results: Seq<WorkerResult>,
)
    requires
        workers >= 0,
        share >= 0,
        pts.len() == workers * share,
        results.len() == workers,
        forall|i: int|
            0 <= i < workers ==> (#[trigger] results[i]).points_in_circle == count_inside(
                pts.subrange(i * share, (i + 1) * share),
                scale,
            ),
    ensures
        sum_counts(results) == count_inside(pts, scale),
    decreases workers,
{
    if workers > 0 {
        let w = workers - 1;
        lemma_mul_succ(w, share);
        lemma_mul_le(0, w, share);
        let head = pts.take(w * share);
        let tail = pts.subrange(w * share, workers * share);
        let rest = results.drop_last();
        assert forall|i: int| 0 <= i < w implies (#[trigger] rest[i]).points_in_circle
            == count_inside(head.subrange(i * share, (i + 1) * share), scale) by {
            lemma_mul_succ(i, share);
            lemma_mul_le(i + 1, w, share);
            lemma_mul_le(0, i, share);
            assert(head.subrange(i * share, (i + 1) * share) =~= pts.subrange(
                i * share,
                (i + 1) * share,
            ));
            assert(rest[i] == results[i]);
        }
        lemma_partition_preserves_count(head, w, share, scale, rest);
        assert(pts =~= head + tail);
        lemma_count_inside_concat(head, tail, scale);
        assert(results[w] == results.last());
    } else {
        assert(pts.len() == 0);
    }
}

} // verus!

//! Monte Carlo estimation of Pi.
//!
//! A run asks for a number of points and a number of workers. The points are
//! split evenly among the workers (the remainder of the division is not
//! sampled); each worker draws its share of points from the unit square and
//! counts those that fall in the quarter disc of radius one; the counts are
//! summed into an estimate `4 * inside / sampled`.
//!
//! Coordinates are fixed-point: a coordinate `k` on a grid of `scale` steps
//! stands for the number `k / scale` in `[0, 1)`, so the test for the disc is
//! exact integer arithmetic.

mod partition;
mod sampler;

pub use partition::{
    lemma_estimate_within_bounds, lemma_partition_preserves_count, lemma_sampled_within_total,
    results_fit, sampled_of, share_of, sum_counts, validate_input, AggregateResult, InputError,
    SampleRequest, WorkerResult, WorkerTask,
};
pub use sampler::{
    count_inside, count_points_in_circle, in_quarter_circle, inside_disc,
    lemma_count_inside_concat, monte_carlo_points_in_circle,
    on_unit_grid, COORD_SCALE,
};

//! The sampler: what one worker does with its share of points.

use rand::rngs::ThreadRng;
use rand::Rng;
use vstd::prelude::*;

verus! {

/// Steps per unit of a coordinate drawn by the sampler: `2^24`, the resolution
/// of a uniform `f32` in `[0, 1)`.
pub const COORD_SCALE: u32 = 16777216;

/// Whether the point `(x / scale, y / scale)` lies in the closed disc of
/// radius one around the origin.
pub open spec fn inside_disc(x: int, y: int, scale: int) -> bool {
    x * x + y * y <= scale * scale
}

proof fn lemma_square_bound(a: nat, b: nat)
    requires
        a <= b,
    ensures
        a * a <= b * b,
{
    assert(a * a <= b * b) by (nonlinear_arith)
        requires
            a <= b,
    ;
}

/// Tests whether `(x / scale, y / scale)` lies in the quarter disc; a point
/// on the circle itself counts as inside.
pub fn in_quarter_circle(x: u32, y: u32, scale: u64) -> (r: bool)
    ensures
        r == inside_disc(x as int, y as int, scale as int),
{
    let xw: u128 = x as u128;
    let yw: u128 = y as u128;
    let sw: u128 = scale as u128;
    proof {
        lemma_square_bound(xw as nat, 0xffff_ffff);
        lemma_square_bound(yw as nat, 0xffff_ffff);
        lemma_square_bound(sw as nat, 0xffff_ffff_ffff_ffff);
    }
    let xx: u128 = xw * xw;
    let yy: u128 = yw * yw;
    let ss: u128 = sw * sw;
    xx + yy <= ss
}

/// Number of points of `pts` that lie in the quarter disc, on a grid of
/// `scale` steps per unit.
pub open spec fn count_inside(pts: Seq<(u32, u32)>, scale: int) -> nat
    decreases pts.len(),
{
    if pts.len() == 0 {
        0
    } else {
        let p = pts.last();
        count_inside(pts.drop_last(), scale) + if inside_disc(p.0 as int, p.1 as int, scale) {
            1nat
        } else {
            0nat
        }
    }
}

/// Whether every coordinate of `pts` lies on the grid of `[0, 1)`.
pub open spec fn on_unit_grid(pts: Seq<(u32, u32)>, scale: int) -> bool {
    forall|i: int| 0 <= i < pts.len() ==> (#[trigger] pts[i]).0 < scale && pts[i].1 < scale
}

/// Counting the points of `a` followed by those of `b` gives the two counts
/// added: the points counted do not depend on how a run is cut into shares.
pub proof fn lemma_count_inside_concat(a: Seq<(u32, u32)>, b: Seq<(u32, u32)>, scale: int)
    ensures
        count_inside(a + b, scale) == count_inside(a, scale) + count_inside(b, scale),
    decreases b.len(),
{
    if b.len() == 0 {
        assert(a + b =~= a);
    } else {
        assert((a + b).drop_last() =~= a + b.drop_last());
        lemma_count_inside_concat(a, b.drop_last(), scale);
    }
}

/// The synthetic sampler: counts the given points that lie in the quarter
/// disc, on a grid of `scale` steps per unit.
pub fn count_points_in_circle(points: &Vec<(u32, u32)>, scale: u64) -> (r: u64)
    ensures
        r == count_inside(points@, scale as int),
{
    let mut count: u64 = 0;
    let mut i: usize = 0;
    while i < points.len()
        invariant
            i <= points@.len(),
            count == count_inside(points@.take(i as int), scale as int),
            count <= i,
        decreases points@.len() - i,
    {
        let (x, y) = points[i];
        assert(points@.take(i as int + 1).drop_last() =~= points@.take(i as int));
        if in_quarter_circle(x, y, scale) {
            count = count + 1;
        }
        i = i + 1;
    }
    assert(points@.take(i as int) =~= points@);
    count
}

/// Relies on `rand::thread_rng`: a handle to the generator of the calling
/// thread, which each thread seeds on its own. Nothing is promised of it.
pub assume_specification[ rand::thread_rng ]() -> ThreadRng;

/// The generator handle of `rand`, carried through opaquely.
#[verifier::external_type_specification]
#[verifier::external_body]
pub struct ExThreadRng(ThreadRng);

/// Relies on `Rng::gen_range` over `0..bound`: a value below `bound`. It panics
/// on an empty range, which `requires` rules out.
#[verifier::external_body]
fn draw_below(rng: &mut ThreadRng, bound: u32) -> (r: u32)
    requires
        bound > 0,
    ensures
        r < bound,
{
    rng.gen_range(0..bound)
}

/// Draws `number_of_points` points uniformly from the grid of the unit
/// square, with a generator of the calling thread's own, and returns how many
/// lie in the quarter disc. Whatever the draws, the result is the count of
/// some such sequence of points.
pub fn monte_carlo_points_in_circle(number_of_points: u64) -> (r: u64)
    ensures
        r <= number_of_points,
        exists|pts: Seq<(u32, u32)>|
            #![trigger count_inside(pts, COORD_SCALE as int)]
            pts.len() == number_of_points && on_unit_grid(pts, COORD_SCALE as int) && r
                == count_inside(pts, COORD_SCALE as int),
{
    let mut rng = rand::thread_rng();
    let mut points_in_circle: u64 = 0;
    let ghost mut drawn: Seq<(u32, u32)> = Seq::empty();
    let mut i: u64 = 0;
    while i < number_of_points
        invariant
            i <= number_of_points,
            drawn.len() == i,
            on_unit_grid(drawn, COORD_SCALE as int),
            points_in_circle == count_inside(drawn, COORD_SCALE as int),
            points_in_circle <= i,
        decreases number_of_points - i,
    {
        let x = draw_below(&mut rng, COORD_SCALE);
        let y = draw_below(&mut rng, COORD_SCALE);
        if in_quarter_circle(x, y, COORD_SCALE as u64) {
            points_in_circle = points_in_circle + 1;
        }
        proof {
            let next = drawn.push((x, y));
            assert(next.drop_last() =~= drawn);
            drawn = next;
        }
        i = i + 1;
    }
    points_in_circle
}

} // verus!

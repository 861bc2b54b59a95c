//! Incremental line-of-sight tracing: a grid walk from origin toward target
//! that tests a caller-supplied passability predicate on each cell entered
//! and stops at the first rejection.

use vstd::prelude::*;

verus! {

use crate::gps::{
    abs_int, cheb, compass_to_unit_vector, compass_vector, heading_primary, mul_unit,
    scale_unit, sgn_int, unit_vector_to_compass, Compass, Pathfinder, Point,
};
use crate::numerics::Norm;

/// Two grid cells exactly one compass step apart.
pub open spec fn adjacent_step(a: Point<i32>, b: Point<i32>) -> bool {
    exists|d: Compass| #[trigger] compass_vector(d) == (b.x - a.x, b.y - a.y)
}

/// The direction whose unit vector is (x, y); meaningful only when (x, y)
/// is one of the eight unit vectors.
pub open spec fn direction_of_vector(x: int, y: int) -> Compass {
    if x < 0 {
        if y < 0 {
            Compass::NW
        } else if y == 0 {
            Compass::W
        } else {
            Compass::SW
        }
    } else if x == 0 {
        if y < 0 {
            Compass::N
        } else {
            Compass::S
        }
    } else {
        if y < 0 {
            Compass::NE
        } else if y == 0 {
            Compass::E
        } else {
            Compass::SE
        }
    }
}

/// A tied step moved from the cardinal-first to the diagonal-first order.
pub open spec fn rewrite_of(p: Point<i32>, dv: (int, int), av: (int, int)) -> Point<i32> {
    Point { x: (p.x - dv.0 + av.0) as i32, y: (p.y - dv.1 + av.1) as i32 }
}

/// What is recorded of an open tied step at index j of the path: it was
/// entered by the primary step, its successor (if it has one) was entered
/// by the alternate step, the rewritten point stays in coordinate range,
/// and the rewritten point also passed the predicate.
pub open spec fn knight_move_ok<F: Fn(Point<i32>) -> bool>(
    j: int,
    line: Seq<Point<i32>>,
    dv: (int, int),
    av: (int, int),
    pass: F,
) -> bool {
    &&& 1 <= j < line.len()
    &&& line[j].x == line[j - 1].x + dv.0 && line[j].y == line[j - 1].y + dv.1
    &&& (j + 1 < line.len() ==> line[j + 1].x == line[j].x + av.0 && line[j + 1].y == line[j].y
        + av.1)
    &&& i32::MIN <= line[j].x - dv.0 + av.0 <= i32::MAX
    &&& i32::MIN <= line[j].y - dv.1 + av.1 <= i32::MAX
    &&& call_ensures(pass, (rewrite_of(line[j], dv, av),), true)
}

/// Some cell one compass step from p was rejected by the predicate.
pub open spec fn rejected_next_to<F: Fn(Point<i32>) -> bool>(p: Point<i32>, pass: F) -> bool {
    exists|q: Point<i32>| adjacent_step(p, q) && call_ensures(pass, (q,), false)
}

/// Whether j is one of the recorded indices.
pub open spec fn knight_index(km: Seq<usize>, j: int) -> bool {
    exists|t: int| 0 <= t < km.len() && km[t] == j
}

/// The magnitude of the remainder left on the minor axis after walking
/// the whole Chebyshev distance along the primary direction.
pub open spec fn remainder_count(dx: int, dy: int, dir: Compass) -> int {
    let rx = dx - mul_unit(cheb(dx, dy), compass_vector(dir).0);
    let ry = dy - mul_unit(cheb(dx, dy), compass_vector(dir).1);
    if rx != 0 {
        abs_int(rx)
    } else {
        abs_int(ry)
    }
}

/// Shape of an off-axis walk: when the remainder after nr primary steps
/// still resolves to a direction, both axes are live with distinct
/// magnitudes, the primary and alternate step vectors both advance the
/// dominant axis while exactly one advances the minor axis, and nr - ac
/// primary steps plus ac alternate steps land exactly on the displacement.
proof fn lemma_bresenham_shape(dx: int, dy: int, dir: Compass, offd: Compass)
    requires
        heading_primary(dx, dy) == Some(dir),
        heading_primary(
            dx - mul_unit(cheb(dx, dy), compass_vector(dir).0),
            dy - mul_unit(cheb(dx, dy), compass_vector(dir).1),
        ) == Some(offd),
    ensures
        dx != 0 && dy != 0 && abs_int(dx) != abs_int(dy),
        ({
            let nr = cheb(dx, dy);
            let ac = remainder_count(dx, dy, dir);
            let dvx = compass_vector(dir).0;
            let dvy = compass_vector(dir).1;
            let avx = dvx + compass_vector(offd).0;
            let avy = dvy + compass_vector(offd).1;
            &&& 1 <= ac < nr
            &&& (abs_int(dx) > abs_int(dy) ==> dvx == sgn_int(dx) && avx == sgn_int(dx) && ((dvy == sgn_int(
                dy,
            ) && avy == 0) || (dvy == 0 && avy == sgn_int(dy))))
            &&& (abs_int(dy) > abs_int(dx) ==> dvy == sgn_int(dy) && avy == sgn_int(dy) && ((dvx == sgn_int(
                dx,
            ) && avx == 0) || (dvx == 0 && avx == sgn_int(dx))))
            &&& dx == mul_unit(nr - ac, dvx) + mul_unit(ac, avx)
            &&& dy == mul_unit(nr - ac, dvy) + mul_unit(ac, avy)
        }),
{
    let adx = abs_int(dx);
    let ady = abs_int(dy);
    let nr = cheb(dx, dy);
    let dvx = compass_vector(dir).0;
    let dvy = compass_vector(dir).1;
    if dx != 0 && dy != 0 && adx != ady {
        if adx > ady {
            assert(nr == adx);
            if 2 * ady < adx {
                // the primary direction is the diagonal
                assert(compass_vector(dir) == (sgn_int(dx), sgn_int(dy)));
                assert(dx - mul_unit(nr, dvx) == 0);
                assert(abs_int(dy - mul_unit(nr, dvy)) == adx - ady);
                assert(compass_vector(offd) == (0int, sgn_int(dy - mul_unit(nr, dvy))));
            } else {
                // the primary direction is the dominant cardinal
                assert(compass_vector(dir) == (sgn_int(dx), 0int));
                assert(dx - mul_unit(nr, dvx) == 0);
                assert(dy - mul_unit(nr, dvy) == dy);
                assert(compass_vector(offd) == (0int, sgn_int(dy)));
            }
        } else {
            assert(nr == ady);
            if 2 * adx < ady {
                assert(compass_vector(dir) == (sgn_int(dx), sgn_int(dy)));
                assert(dy - mul_unit(nr, dvy) == 0);
                assert(abs_int(dx - mul_unit(nr, dvx)) == ady - adx);
                assert(compass_vector(offd) == (sgn_int(dx - mul_unit(nr, dvx)), 0int));
            } else {
                assert(compass_vector(dir) == (0int, sgn_int(dy)));
                assert(dy - mul_unit(nr, dvy) == 0);
                assert(dx - mul_unit(nr, dvx) == dx);
                assert(compass_vector(offd) == (sgn_int(dx), 0int));
            }
        }
    }
}

/// Accounting for the error accumulator: out of i steps, k took the
/// alternate vector, and the bounded accumulator pins k to the rounded
/// share ac * i / nr.
proof fn lemma_step_counts(nr: int, ac: int, i: int, k: int, num: int) by (nonlinear_arith)
    requires
        1 <= ac < nr,
        0 <= i <= nr,
        num == 2 * ac * i - 2 * nr * k,
        -nr <= num <= nr,
    ensures
        0 <= k <= ac,
        0 <= i - k <= nr - ac,
        i == nr ==> k == ac,
{
}

/// A walk of fewer than nr steps has not yet reached the target: the
/// dominant coordinate still differs.
proof fn lemma_last_not_target(
    from: Point<i32>,
    to: Point<i32>,
    i: int,
    k: int,
    nr: int,
    ac: int,
    dv: (int, int),
    av: (int, int),
    pos: Point<i32>,
)
    requires
        abs_int(to.x - from.x) > abs_int(to.y - from.y) ==> dv.0 == av.0 && abs_int(dv.0) == 1,
        abs_int(to.x - from.x) <= abs_int(to.y - from.y) ==> dv.1 == av.1 && abs_int(dv.1) == 1,
        to.x == from.x + mul_unit(nr - ac, dv.0) + mul_unit(ac, av.0),
        to.y == from.y + mul_unit(nr - ac, dv.1) + mul_unit(ac, av.1),
        pos.x == from.x + mul_unit(i - k, dv.0) + mul_unit(k, av.0),
        pos.y == from.y + mul_unit(i - k, dv.1) + mul_unit(k, av.1),
        0 <= ac <= nr,
        0 <= i < nr,
        0 <= k <= i,
    ensures
        pos != to,
{
    if abs_int(to.x - from.x) > abs_int(to.y - from.y) {
        assert(pos.x == from.x + mul_unit(i, dv.0));
        assert(to.x == from.x + mul_unit(nr, dv.0));
    } else {
        assert(pos.y == from.y + mul_unit(i, dv.1));
        assert(to.y == from.y + mul_unit(nr, dv.1));
    }
}

/// Rewriting the recorded tied steps from the cardinal-first to the
/// diagonal-first order preserves the path invariants: same endpoints,
/// consecutive cells still one compass step apart, every visited cell
/// still accepted by the predicate.
proof fn lemma_rewrite_keeps_path<F: Fn(Point<i32>) -> bool>(
    old_line: Seq<Point<i32>>,
    new_line: Seq<Point<i32>>,
    km: Seq<usize>,
    dv: (int, int),
    av: (int, int),
    pass: F,
)
    requires
        new_line.len() == old_line.len(),
        old_line.len() >= 1,
        forall|j: int| 0 <= j < old_line.len() && !knight_index(km, j) ==> new_line[j]
            == old_line[j],
        forall|t: int| #![trigger km[t]] 0 <= t < km.len() ==> knight_move_ok(
            km[t] as int,
            old_line,
            dv,
            av,
            pass,
        ),
        forall|t: int| #![trigger km[t]] 0 <= t < km.len() ==> km[t] + 1 < old_line.len(),
        forall|t1: int, t2: int| #![trigger km[t1], km[t2]] 0 <= t1 < t2 < km.len() ==> km[t1]
            + 2 <= km[t2],
        forall|t: int| #![trigger km[t]] 0 <= t < km.len() ==> new_line[km[t] as int]
            == rewrite_of(old_line[km[t] as int], dv, av),
        forall|j: int| 0 < j < old_line.len() ==> adjacent_step(
            old_line[j - 1],
            #[trigger] old_line[j],
        ),
        forall|j: int| 0 < j < old_line.len() ==> call_ensures(
            pass,
            (#[trigger] old_line[j],),
            true,
        ),
        exists|da: Compass| #[trigger] compass_vector(da) == av,
        exists|dd: Compass| #[trigger] compass_vector(dd) == dv,
    ensures
        new_line[0] == old_line[0],
        new_line.last() == old_line.last(),
        forall|j: int| 0 < j < new_line.len() ==> adjacent_step(
            new_line[j - 1],
            #[trigger] new_line[j],
        ),
        forall|j: int| 0 < j < new_line.len() ==> call_ensures(
            pass,
            (#[trigger] new_line[j],),
            true,
        ),
{
    assert(!knight_index(km, 0)) by {
        if knight_index(km, 0) {
            let t = choose|t: int| 0 <= t < km.len() && km[t] == 0;
            assert(knight_move_ok(0, old_line, dv, av, pass));
        }
    }
    assert(!knight_index(km, old_line.len() - 1)) by {
        if knight_index(km, old_line.len() - 1) {
            let t = choose|t: int| 0 <= t < km.len() && km[t] == old_line.len() - 1;
            assert(km[t] + 1 < old_line.len());
        }
    }
    assert forall|j: int| 0 < j < new_line.len() implies call_ensures(
        pass,
        (#[trigger] new_line[j],),
        true,
    ) by {
        if knight_index(km, j) {
            let t = choose|t: int| 0 <= t < km.len() && km[t] == j;
            assert(knight_move_ok(j, old_line, dv, av, pass));
            assert(new_line[j] == rewrite_of(old_line[j], dv, av));
        } else {
            assert(new_line[j] == old_line[j]);
        }
    }
    assert forall|j: int| 0 < j < new_line.len() implies adjacent_step(
        new_line[j - 1],
        #[trigger] new_line[j],
    ) by {
        let da = choose|da: Compass| #[trigger] compass_vector(da) == av;
        let dd = choose|dd: Compass| #[trigger] compass_vector(dd) == dv;
        if knight_index(km, j) {
            let t = choose|t: int| 0 <= t < km.len() && km[t] == j;
            assert(knight_move_ok(j, old_line, dv, av, pass));
            assert(!knight_index(km, j - 1)) by {
                if knight_index(km, j - 1) {
                    let t1 = choose|t1: int| 0 <= t1 < km.len() && km[t1] == j - 1;
                    if t1 < t {
                        assert(km[t1] + 2 <= km[t]);
                    } else {
                        assert(km[t] + 2 <= km[t1]);
                    }
                }
            }
            // entered by dv before; enters by av after the rewrite
            assert(new_line[j - 1] == old_line[j - 1]);
            assert(new_line[j].x - new_line[j - 1].x == av.0 && new_line[j].y - new_line[j - 1].y
                == av.1);
            assert(compass_vector(da) == (new_line[j].x - new_line[j - 1].x, new_line[j].y
                - new_line[j - 1].y));
        } else if knight_index(km, j - 1) {
            let t = choose|t: int| 0 <= t < km.len() && km[t] == j - 1;
            assert(knight_move_ok(j - 1, old_line, dv, av, pass));
            assert(!knight_index(km, j)) by {
                if knight_index(km, j) {
                    let t1 = choose|t1: int| 0 <= t1 < km.len() && km[t1] == j;
                    if t1 < t {
                        assert(km[t1] + 2 <= km[t]);
                    } else {
                        assert(km[t] + 2 <= km[t1]);
                    }
                }
            }
            // its successor was entered by av before; by dv after
            assert(new_line[j] == old_line[j]);
            assert(new_line[j].x - new_line[j - 1].x == dv.0 && new_line[j].y - new_line[j - 1].y
                == dv.1);
            assert(compass_vector(dd) == (new_line[j].x - new_line[j - 1].x, new_line[j].y
                - new_line[j - 1].y));
        } else {
            assert(new_line[j] == old_line[j] && new_line[j - 1] == old_line[j - 1]);
            assert(adjacent_step(old_line[j - 1], old_line[j]));
        }
    }
}

/// Pushing the next visited cell keeps every recorded tied step intact:
/// the recorded facts concern only a step, its predecessor and its
/// successor, and a recorded step whose successor is the pushed cell must
/// be the still-open tie, which forces the pushed cell to be its alternate
/// successor.
proof fn lemma_km_after_step<F: Fn(Point<i32>) -> bool>(
    km: Seq<usize>,
    old_line: Seq<Point<i32>>,
    q: Point<i32>,
    dv: (int, int),
    av: (int, int),
    pass: F,
    old_tie: bool,
    alt_taken: bool,
)
    requires
        old_line.len() >= 1,
        forall|t: int| #![trigger km[t]] 0 <= t < km.len() ==> knight_move_ok(
            km[t] as int,
            old_line,
            dv,
            av,
            pass,
        ) && (km[t] + 1 < old_line.len() || old_tie),
        old_tie ==> alt_taken,
        alt_taken ==> q.x == old_line.last().x + av.0 && q.y == old_line.last().y + av.1,
    ensures
        forall|t: int| #![trigger km[t]] 0 <= t < km.len() ==> knight_move_ok(
            km[t] as int,
            old_line.push(q),
            dv,
            av,
            pass,
        ) && km[t] + 1 < old_line.push(q).len(),
{
    let new_line = old_line.push(q);
    assert forall|t: int| #![trigger km[t]] 0 <= t < km.len() implies knight_move_ok(
        km[t] as int,
        new_line,
        dv,
        av,
        pass,
    ) && km[t] + 1 < new_line.len() by {
        let j = km[t] as int;
        assert(knight_move_ok(j, old_line, dv, av, pass));
        assert(new_line[j] == old_line[j] && new_line[j - 1] == old_line[j - 1]);
        if j + 1 < old_line.len() {
            assert(new_line[j + 1] == old_line[j + 1]);
        } else {
            assert(old_tie);
            assert(old_line.last() == old_line[j]);
            assert(new_line[j + 1] == q);
        }
    }
}

/// The straight walk used when the displacement is an exact multiple of
/// the heading's unit vector: step that vector up to `actual_range` times,
/// testing each cell entered.
#[verifier::loop_isolation(false)]
fn walk_straight<F: Fn(Point<i32>) -> bool>(
    actual_range: i64,
    max_steps: u32,
    from: &Point<i32>,
    to: &Point<i32>,
    dir: Compass,
    pass: &F,
) -> (r: (bool, Vec<Point<i32>>))
    requires
        forall|p: Point<i32>| call_requires(*pass, (p,)),
        max_steps >= 1,
        1 <= cheb(to.x - from.x, to.y - from.y),
        to.x == from.x + mul_unit(cheb(to.x - from.x, to.y - from.y), compass_vector(dir).0),
        to.y == from.y + mul_unit(cheb(to.x - from.x, to.y - from.y), compass_vector(dir).1),
        actual_range == if (max_steps as int) < cheb(to.x - from.x, to.y - from.y) {
            max_steps as int
        } else {
            cheb(to.x - from.x, to.y - from.y)
        },
    ensures
        r.1@.len() >= 1,
        r.1@[0] == *from,
        forall|j: int| 0 < j < r.1@.len() ==> adjacent_step(r.1@[j - 1], #[trigger] r.1@[j]),
        forall|j: int| 0 < j < r.1@.len() ==> call_ensures(*pass, (#[trigger] r.1@[j],), true),
        r.0 <==> r.1@.last() == *to,
        !r.0 ==> (max_steps as int) < cheb(to.x - from.x, to.y - from.y) || rejected_next_to(
            r.1@.last(),
            *pass,
        ),
        r.1@.len() <= cheb(to.x - from.x, to.y - from.y) + 1,
        r.1@.len() <= max_steps as int + 1,
{
    let ghost nrg: int = cheb(to.x - from.x, to.y - from.y);
    let ghost dvx: int = compass_vector(dir).0;
    let ghost dvy: int = compass_vector(dir).1;
    proof {
        assert(dvx != 0 || dvy != 0);
    }
    let mut start: Point<i32> = *from;
    let mut line: Vec<Point<i32>> = Vec::new();
    line.push(start);
    let mut i: i64 = 0;
    while i < actual_range
        invariant
            0 <= i <= actual_range,
            start.x == from.x + mul_unit(i as int, dvx),
            start.y == from.y + mul_unit(i as int, dvy),
            line@.len() == i + 1,
            line@[0] == *from,
            line@.last() == start,
            forall|j: int| 0 < j < line@.len() ==> adjacent_step(
                line@[j - 1],
                #[trigger] line@[j],
            ),
            forall|j: int| 0 < j < line@.len() ==> call_ensures(
                *pass,
                (#[trigger] line@[j],),
                true,
            ),
        decreases actual_range - i,
    {
        let next = start.step(dir);
        proof {
            assert(compass_vector(dir) == (next.x - start.x, next.y - start.y));
        }
        if !pass(next) {
            proof {
                assert(rejected_next_to(line@.last(), *pass)) by {
                    assert(adjacent_step(line@.last(), next) && call_ensures(
                        *pass,
                        (next,),
                        false,
                    ));
                }
            }
            return (false, line);
        }
        start = next;
        line.push(start);
        i = i + 1;
    }
    (start.x == to.x && start.y == to.y, line)
}

/// Walks the grid from `from` toward `to`, testing `pass` on every cell
/// entered, and returns whether the walk ended on `to` together with the
/// ordered cells visited, origin first.
///
/// Off-axis displacements use an error accumulator: the walk steps the
/// primary direction while the accumulated error is low and the alternate
/// direction when it is high. When the error ties exactly (the knight-move
/// displacement), the choice of order is deferred: both candidate cells are
/// probed, a single rejection commits the whole path to the surviving order
/// (rewriting the earlier tied steps to match), and if both survive the tie
/// stays open with the cardinal-first cell recorded. The walk aborts,
/// returning `false` with the path so far, as soon as a cell it enters is
/// rejected; the budget `maxSteps` caps how many cells it enters even if
/// the target is farther, and success always means the walk ended exactly
/// on the target.
/// The off-axis walk: an error accumulator steps the primary direction
/// while the error is low, the alternate when it is high, and defers the
/// knight-move tie as described on `AngbandlikeTrace`.
#[verifier::loop_isolation(false)]
#[verifier::rlimit(100)]
#[verifier::spinoff_prover]
fn walk_skewed<F: Fn(Point<i32>) -> bool>(
    maxSteps: u32,
    actual_range: i64,
    need_range: i64,
    from: &Point<i32>,
    to: &Point<i32>,
    dir: Compass,
    offset_dir: Compass,
    pass: F,
) -> (r: (bool, Vec<Point<i32>>))
    requires
        forall|p: Point<i32>| call_requires(pass, (p,)),
        maxSteps >= 1,
        need_range == cheb(to.x - from.x, to.y - from.y),
        actual_range == if (maxSteps as int) < cheb(to.x - from.x, to.y - from.y) {
            maxSteps as int
        } else {
            cheb(to.x - from.x, to.y - from.y)
        },
        heading_primary(to.x - from.x, to.y - from.y) == Some(dir),
        heading_primary(
            to.x - from.x - mul_unit(cheb(to.x - from.x, to.y - from.y), compass_vector(dir).0),
            to.y - from.y - mul_unit(cheb(to.x - from.x, to.y - from.y), compass_vector(dir).1),
        ) == Some(offset_dir),
    ensures
        r.1@.len() >= 1,
        r.1@[0] == *from,
        forall|j: int| 0 < j < r.1@.len() ==> adjacent_step(r.1@[j - 1], #[trigger] r.1@[j]),
        forall|j: int| 0 < j < r.1@.len() ==> call_ensures(pass, (#[trigger] r.1@[j],), true),
        r.0 <==> r.1@.last() == *to,
        !r.0 ==> (maxSteps as int) < cheb(to.x - from.x, to.y - from.y) || rejected_next_to(
            r.1@.last(),
            pass,
        ),
        r.1@.len() <= cheb(to.x - from.x, to.y - from.y) + 1,
        r.1@.len() <= maxSteps as int + 1,
{
    let ghost dxg: int = to.x - from.x;
    let ghost dyg: int = to.y - from.y;
    let ghost nrg: int = cheb(dxg, dyg);
    let ghost dvx: int = compass_vector(dir).0;
    let ghost dvy: int = compass_vector(dir).1;
    let mut start: Point<i32> = *from;
    let mut line: Vec<Point<i32>> = Vec::new();
    line.push(start);
    let dv = compass_to_unit_vector(dir);
    let end: Point<i64> = Point {
        x: from.x as i64 + scale_unit(need_range, dv.x),
        y: from.y as i64 + scale_unit(need_range, dv.y),
    };
    let ov = compass_to_unit_vector(offset_dir);
    let alt_vec: Point<i64> = Point { x: dv.x as i64 + ov.x as i64, y: dv.y as i64 + ov.y as i64 };

    let ghost sx: int = if dxg > 0 { 1int } else { -1int };
    let ghost sy: int = if dyg > 0 { 1int } else { -1int };
    let ghost adxg: int = abs_int(dxg);
    let ghost adyg: int = abs_int(dyg);
    let ghost ovx: int = compass_vector(offset_dir).0;
    let ghost ovy: int = compass_vector(offset_dir).1;
    let ghost avx: int = dvx + ovx;
    let ghost avy: int = dvy + ovy;
    let ghost acg: int = remainder_count(dxg, dyg, dir);

    proof {
        lemma_bresenham_shape(dxg, dyg, dir, offset_dir);
        assert(to.x == from.x + mul_unit(nrg - acg, dvx) + mul_unit(acg, avx));
        assert(to.y == from.y + mul_unit(nrg - acg, dvy) + mul_unit(acg, avy));
        assert(compass_vector(direction_of_vector(avx, avy)) == (avx, avy));
    }
    let alt_step = match unit_vector_to_compass(alt_vec) {
        Ok(d) => d,
        Err(_) => {
            proof {
                assert(false);
            }
            vstd::pervasive::unreached()
        },
    };

    let err_x: i64 = to.x as i64 - end.x;
    let err_y: i64 = to.y as i64 - end.y;
    let mut alt_count: i64 = if err_x != 0 {
        err_x
    } else {
        err_y
    };
    if 0 > alt_count {
        alt_count = -alt_count;
    }
    proof {
        assert(alt_count == acg);
    }

    let mut knightmove_parity: i8 = 0;
    let mut numerator: i64 = 0;
    let mut knight_moves: Vec<usize> = Vec::new();
    let mut i: i64 = 0;
    let ghost mut k: int = 0;

    #[verifier::loop_isolation(true)]
    while i < actual_range
        invariant
            forall|p: Point<i32>| call_requires(pass, (p,)),
            maxSteps >= 1,
            dxg == to.x - from.x,
            dyg == to.y - from.y,
            nrg == cheb(dxg, dyg),
            dxg != 0 && dyg != 0 && abs_int(dxg) != abs_int(dyg),
            sx == sgn_int(dxg) && sy == sgn_int(dyg),
            dvx == compass_vector(dir).0 && dvy == compass_vector(dir).1,
            avx == compass_vector(alt_step).0 && avy == compass_vector(alt_step).1,
            dv.x as int == dvx && dv.y as int == dvy,
            ov.x as int == ovx && ov.y as int == ovy,
            avx == dvx + ovx && avy == dvy + ovy,
            abs_int(dxg) > abs_int(dyg) ==> dvx == sx && avx == sx && ((dvy == sy && avy == 0)
                || (dvy == 0 && avy == sy)),
            abs_int(dyg) > abs_int(dxg) ==> dvy == sy && avy == sy && ((dvx == sx && avx == 0)
                || (dvx == 0 && avx == sx)),
            1 <= acg < nrg,
            to.x == from.x + mul_unit(nrg - acg, dvx) + mul_unit(acg, avx),
            to.y == from.y + mul_unit(nrg - acg, dvy) + mul_unit(acg, avy),
            need_range == nrg,
            alt_count == acg,
            actual_range == if (maxSteps as int) < nrg {
                maxSteps as int
            } else {
                nrg
            },
            0 <= i <= actual_range,
            numerator == 2 * acg * i - 2 * nrg * k,
            -nrg <= numerator <= nrg,
            0 <= k <= acg,
            0 <= i - k <= nrg - acg,
            start.x == from.x + mul_unit(i - k, dvx) + mul_unit(k, avx),
            start.y == from.y + mul_unit(i - k, dvy) + mul_unit(k, avy),
            line@.len() == i + 1,
            line@[0] == *from,
            line@.last() == start,
            forall|j: int| 0 < j < line@.len() ==> adjacent_step(
                line@[j - 1],
                #[trigger] line@[j],
            ),
            forall|j: int| 0 < j < line@.len() ==> call_ensures(
                pass,
                (#[trigger] line@[j],),
                true,
            ),
            knightmove_parity == 0 || knightmove_parity == 1 || knightmove_parity == -1,
            knightmove_parity == 0 ==> forall|t: int| #![trigger knight_moves@[t]]
                0 <= t < knight_moves@.len() ==> knight_move_ok(
                knight_moves@[t] as int,
                line@,
                (dvx, dvy),
                (avx, avy),
                pass,
            ) && (knight_moves@[t] + 1 < line@.len() || numerator == nrg),
            knightmove_parity == 0 ==> forall|t1: int, t2: int|
                #![trigger knight_moves@[t1], knight_moves@[t2]]
                0 <= t1 < t2 < knight_moves@.len() ==> knight_moves@[t1] + 2
                    <= knight_moves@[t2],
        decreases actual_range - i,
    {
        let ghost num0: int = numerator as int;
        let ghost line0 = line@;
        numerator = numerator + 2 * alt_count;
        proof {
            assert(2 * acg * (i + 1) == 2 * acg * i + 2 * acg) by (nonlinear_arith);
        }
        if numerator > need_range {
            // high error: take the alternate step
            proof {
                assert(2 * nrg * (k + 1) == 2 * nrg * k + 2 * nrg) by (nonlinear_arith);
                lemma_step_counts(nrg, acg, i + 1, k + 1, numerator as int - 2 * nrg);
            }
            numerator = numerator - 2 * need_range;
            let next = start.step(alt_step);
            proof {
                k = k + 1;
                assert(compass_vector(alt_step) == (next.x - start.x, next.y - start.y));
            }
            if !pass(next) {
                proof {
                    lemma_last_not_target(
                        *from, *to, i as int, k - 1, nrg, acg, (dvx, dvy), (avx, avy), start,
                    );
                    assert(rejected_next_to(line@.last(), pass)) by {
                        assert(adjacent_step(line@.last(), next) && call_ensures(
                            pass,
                            (next,),
                            false,
                        ));
                    }
                }
                return (false, line);
            }
            start = next;
            line.push(start);
            i = i + 1;
            proof {
                if knightmove_parity == 0 {
                    lemma_km_after_step(
                        knight_moves@,
                        line0,
                        next,
                        (dvx, dvy),
                        (avx, avy),
                        pass,
                        num0 == nrg,
                        true,
                    );
                }
            }
            continue;
        }
        if numerator < need_range {
            // low error: take the primary step
            proof {
                lemma_step_counts(nrg, acg, i + 1, k, numerator as int);
            }
            let next = start.step(dir);
            proof {
                assert(compass_vector(dir) == (next.x - start.x, next.y - start.y));
            }
            if !pass(next) {
                proof {
                    lemma_last_not_target(
                        *from, *to, i as int, k, nrg, acg, (dvx, dvy), (avx, avy), start,
                    );
                    assert(rejected_next_to(line@.last(), pass)) by {
                        assert(adjacent_step(line@.last(), next) && call_ensures(
                            pass,
                            (next,),
                            false,
                        ));
                    }
                }
                return (false, line);
            }
            start = next;
            line.push(start);
            i = i + 1;
            proof {
                if knightmove_parity == 0 {
                    assert(num0 != nrg);
                    lemma_km_after_step(
                        knight_moves@,
                        line0,
                        next,
                        (dvx, dvy),
                        (avx, avy),
                        pass,
                        false,
                        false,
                    );
                }
            }
            continue;
        }
        // exact tie: the knight-move ambiguity
        proof {
            assert(2 * nrg * (k + 1) == 2 * nrg * k + 2 * nrg) by (nonlinear_arith);
            lemma_step_counts(nrg, acg, i + 1, k, numerator as int);
            lemma_step_counts(nrg, acg, i + 1, k + 1, numerator as int - 2 * nrg);
        }
        if 0 == knightmove_parity {
            let probe = start.step(dir);
            if !pass(probe) {
                knightmove_parity = -1;
                // the cardinal-first order is dead: rewrite the earlier
                // tied steps to the diagonal-first order
                let ghost old_line = line@;
                let mut t: usize = 0;
                while t < knight_moves.len()
                    invariant
                        0 <= t <= knight_moves@.len(),
                        old_line.len() >= 1,
                        forall|tt: int| #![trigger knight_moves@[tt]] 0 <= tt
                            < knight_moves@.len() ==> knight_move_ok(
                            knight_moves@[tt] as int,
                            old_line,
                            (dvx, dvy),
                            (avx, avy),
                            pass,
                        ),
                        forall|tt: int| #![trigger knight_moves@[tt]] 0 <= tt
                            < knight_moves@.len() ==> knight_moves@[tt] + 1 < old_line.len(),
                        forall|t1: int, t2: int|
                            #![trigger knight_moves@[t1], knight_moves@[t2]]
                            0 <= t1 < t2 < knight_moves@.len() ==> knight_moves@[t1] + 2
                                <= knight_moves@[t2],
                        line@.len() == old_line.len(),
                        forall|j: int| 0 <= j < line@.len() && !knight_index(
                            knight_moves@,
                            j,
                        ) ==> line@[j] == old_line[j],
                        forall|tt: int| #![trigger knight_moves@[tt]] 0 <= tt < t
                            ==> line@[knight_moves@[tt] as int] == rewrite_of(
                            old_line[knight_moves@[tt] as int],
                            (dvx, dvy),
                            (avx, avy),
                        ),
                        forall|tt: int| #![trigger knight_moves@[tt]] t <= tt
                            < knight_moves@.len() ==> line@[knight_moves@[tt] as int]
                            == old_line[knight_moves@[tt] as int],
                    decreases knight_moves@.len() - t,
                {
                    let j = knight_moves[t];
                    proof {
                        assert(knight_move_ok(
                            j as int,
                            old_line,
                            (dvx, dvy),
                            (avx, avy),
                            pass,
                        ));
                        assert(knight_index(knight_moves@, j as int));
                    }
                    let p = line[j];
                    let fixed = Point {
                        x: ((p.x as i64 - dv.x as i64) + (dv.x as i64 + ov.x as i64)) as i32,
                        y: ((p.y as i64 - dv.y as i64) + (dv.y as i64 + ov.y as i64)) as i32,
                    };
                    let ghost line_before = line@;
                    line.set(j, fixed);
                    proof {
                        assert(p == old_line[j as int]);
                        assert(fixed == rewrite_of(old_line[j as int], (dvx, dvy), (avx, avy)));
                        assert forall|tt: int| #![trigger knight_moves@[tt]] 0 <= tt < t + 1
                            implies line@[knight_moves@[tt] as int] == rewrite_of(
                            old_line[knight_moves@[tt] as int],
                            (dvx, dvy),
                            (avx, avy),
                        ) by {
                            if tt < t {
                                assert(knight_moves@[tt] + 2 <= knight_moves@[t as int]);
                                assert(line@[knight_moves@[tt] as int] == line_before[
                                    knight_moves@[tt] as int
                                ]);
                            }
                        }
                    }
                    t = t + 1;
                }
                proof {
                    assert(num0 != nrg);
                    assert(forall|tt: int| #![trigger knight_moves@[tt]]
                        0 <= tt < knight_moves@.len() ==> knight_moves@[tt] + 1
                            < old_line.len());
                    lemma_rewrite_keeps_path(
                        old_line,
                        line@,
                        knight_moves@,
                        (dvx, dvy),
                        (avx, avy),
                        pass,
                    );
                }
            }
        }
        if 0 == knightmove_parity {
            let probe = start.step(alt_step);
            if !pass(probe) {
                knightmove_parity = 1;
            }
        }
        if 0 == knightmove_parity {
            knight_moves.push(line.len());
        }
        if -1 == knightmove_parity {
            // committed to the diagonal-first order
            proof {
                assert(2 * nrg * (k + 1) == 2 * nrg * k + 2 * nrg) by (nonlinear_arith);
            }
            numerator = numerator - 2 * need_range;
            let next = start.step(alt_step);
            proof {
                k = k + 1;
                assert(compass_vector(alt_step) == (next.x - start.x, next.y - start.y));
            }
            if !pass(next) {
                proof {
                    lemma_last_not_target(
                        *from, *to, i as int, k - 1, nrg, acg, (dvx, dvy), (avx, avy), start,
                    );
                    assert(rejected_next_to(line@.last(), pass)) by {
                        assert(adjacent_step(line@.last(), next) && call_ensures(
                            pass,
                            (next,),
                            false,
                        ));
                    }
                }
                return (false, line);
            }
            start = next;
            line.push(start);
            i = i + 1;
            continue;
        }
        // the tie stays open (or the cardinal-first order is committed):
        // take the primary step, leaving the accumulator at the tie
        let next = start.step(dir);
        proof {
            assert(compass_vector(dir) == (next.x - start.x, next.y - start.y));
        }
        if !pass(next) {
            proof {
                lemma_last_not_target(
                    *from, *to, i as int, k, nrg, acg, (dvx, dvy), (avx, avy), start,
                );
                assert(rejected_next_to(line@.last(), pass)) by {
                    assert(adjacent_step(line@.last(), next) && call_ensures(
                        pass,
                        (next,),
                        false,
                    ));
                }
            }
            return (false, line);
        }
        start = next;
        line.push(start);
        i = i + 1;
        proof {
            if knightmove_parity == 0 {
                assert(num0 != nrg);
                assert(knight_moves@.last() as int + 1 == line@.len() - 1 + 1);
                lemma_km_after_step(
                    knight_moves@.drop_last(),
                    line0,
                    next,
                    (dvx, dvy),
                    (avx, avy),
                    pass,
                    false,
                    false,
                );
                assert(knight_move_ok(
                    line0.len() as int,
                    line@,
                    (dvx, dvy),
                    (avx, avy),
                    pass,
                ));
            }
        }
    }
    proof {
        if i == nrg {
            lemma_step_counts(nrg, acg, i as int, k, numerator as int);
        } else {
            lemma_last_not_target(
                *from, *to, i as int, k, nrg, acg, (dvx, dvy), (avx, avy), start,
            );
        }
    }
    (start.x == to.x && start.y == to.y, line)}

#[allow(non_snake_case)]
#[verifier::loop_isolation(false)]
#[verifier::rlimit(100)]
#[verifier::spinoff_prover]
pub fn AngbandlikeTrace<F: Fn(Point<i32>) -> bool>(
    maxSteps: u32,
    from: &Point<i32>,
    to: &Point<i32>,
    pass: F,
) -> (r: (bool, Vec<Point<i32>>))
    requires
        forall|p: Point<i32>| call_requires(pass, (p,)),
    ensures
        r.1@.len() >= 1,
        r.1@[0] == *from,
        forall|j: int| 0 < j < r.1@.len() ==> adjacent_step(r.1@[j - 1], #[trigger] r.1@[j]),
        forall|j: int| 0 < j < r.1@.len() ==> call_ensures(pass, (#[trigger] r.1@[j],), true),
        r.0 <==> r.1@.last() == *to,
        !r.0 ==> (maxSteps as int) < cheb(to.x - from.x, to.y - from.y) || rejected_next_to(
            r.1@.last(),
            pass,
        ),
        r.1@.len() <= cheb(to.x - from.x, to.y - from.y) + 1,
        r.1@.len() <= maxSteps as int + 1,
        *from == *to || maxSteps == 0 ==> r.1@.len() == 1,
{
    let mut start: Point<i32> = *from;
    let mut line: Vec<Point<i32>> = Vec::new();
    line.push(start);

    if 0 == maxSteps {
        // a zero budget visits only the origin; that succeeds exactly when
        // the origin already is the target
        return (start.x == to.x && start.y == to.y, line);
    }

    let tmp = from.compass_heading_full(to);
    if tmp.is_none() {
        // the two points coincide
        return (true, line);
    }
    let dir = tmp.unwrap().0;

    let dx: i64 = to.x as i64 - from.x as i64;
    let dy: i64 = to.y as i64 - from.y as i64;
    let adx: u64 = dx.norm();
    let ady: u64 = dy.norm();
    let need_range: i64 = (if adx >= ady {
        adx
    } else {
        ady
    }) as i64;
    let actual_range: i64 = if (maxSteps as i64) < need_range {
        maxSteps as i64
    } else {
        need_range
    };

    let ghost dxg: int = to.x - from.x;
    let ghost dyg: int = to.y - from.y;
    let ghost nrg: int = cheb(dxg, dyg);
    let ghost dvx: int = compass_vector(dir).0;
    let ghost dvy: int = compass_vector(dir).1;

    proof {
        assert(need_range == nrg);
        assert(1 <= nrg);
    }

    let dv = compass_to_unit_vector(dir);
    let end: Point<i64> = Point {
        x: from.x as i64 + scale_unit(need_range, dv.x),
        y: from.y as i64 + scale_unit(need_range, dv.y),
    };
    let offset = end.compass_heading(to);
    if offset.is_none() {
        // the displacement is an exact multiple of the heading's unit
        // vector: walk straight along it
        proof {
            assert(to.x == from.x + mul_unit(nrg, dvx));
            assert(to.y == from.y + mul_unit(nrg, dvy));
        }
        return walk_straight(actual_range, maxSteps, from, to, dir, &pass);
    }
    let offset_dir = offset.unwrap();
    walk_skewed(maxSteps, actual_range, need_range, from, to, dir, offset_dir, pass)
}

} // verus!

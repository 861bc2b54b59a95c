use isk::gps::{
    _diag, compass_to_unit_vector, heading_of_delta, unit_vector_to_compass, Compass, Pathfinder,
    Point, Rect,
};
use isk::los::AngbandlikeTrace;
use isk::numerics::{HaveLT, Norm, Rearrange};

fn all_dirs() -> Vec<Compass> {
    vec![
        Compass::N,
        Compass::NE,
        Compass::E,
        Compass::SE,
        Compass::S,
        Compass::SW,
        Compass::W,
        Compass::NW,
    ]
}

#[test]
fn compass_round_trip_all_directions() {
    for d in all_dirs() {
        let v = compass_to_unit_vector(d);
        let wide = Point { x: v.x as i64, y: v.y as i64 };
        assert_eq!(unit_vector_to_compass(wide), Ok(d));
    }
}

#[test]
fn compass_index_round_trip() {
    for d in all_dirs() {
        let i = d.to_index();
        assert_eq!(Compass::try_from(i), Ok(d));
    }
    assert!(Compass::try_from(8).is_err());
    assert!(Compass::try_from(-1).is_err());
}

#[test]
fn unit_vector_to_compass_rejects_non_units() {
    assert_eq!(unit_vector_to_compass(Point { x: 0i64, y: 0i64 }), Err(()));
    assert_eq!(unit_vector_to_compass(Point { x: 2i64, y: 1i64 }), Err(()));
    assert_eq!(unit_vector_to_compass(Point { x: -3i64, y: 0i64 }), Err(()));
}

#[test]
fn heading_three_one_is_pure_diagonal() {
    // displacement (3,1): secondary 2 < dominant 3, so the diagonal wins
    // with no alternate
    let from = Point { x: 0i32, y: 0i32 };
    let to = Point { x: 3i32, y: 1i32 };
    assert_eq!(from.compass_heading_full(&to), Some((Compass::SE, None)));
    assert_eq!(from.compass_heading(&to), Some(Compass::SE));
}

#[test]
fn heading_two_one_is_knight_move_tie() {
    // displacement (2,1): secondary 2 == dominant 2, the knight-move tie
    let from = Point { x: 0i32, y: 0i32 };
    let to = Point { x: 2i32, y: 1i32 };
    assert_eq!(from.compass_heading_full(&to), Some((Compass::E, Some(Compass::SE))));
}

#[test]
fn heading_cardinals_and_zero() {
    let o = Point { x: 0i32, y: 0i32 };
    assert_eq!(o.compass_heading_full(&Point { x: 0, y: 5 }), Some((Compass::S, None)));
    assert_eq!(o.compass_heading_full(&Point { x: -4, y: 0 }), Some((Compass::W, None)));
    assert_eq!(o.compass_heading_full(&Point { x: 0, y: -9 }), Some((Compass::N, None)));
    assert_eq!(o.compass_heading_full(&Point { x: 7, y: 0 }), Some((Compass::E, None)));
    assert_eq!(o.compass_heading_full(&o.clone()), None);
    assert_eq!(heading_of_delta(0, 0), None);
    assert_eq!(heading_of_delta(-5, -5), Some((Compass::NW, None)));
}

#[test]
fn heading_dominant_cardinal() {
    // displacement (5,4): secondary 8 > dominant 5, the cardinal wins
    let from = Point { x: 0i32, y: 0i32 };
    assert_eq!(from.compass_heading_full(&Point { x: 5, y: 4 }), Some((Compass::E, None)));
}

#[test]
fn trace_reflexive() {
    let p = Point { x: 4i32, y: -7i32 };
    let r = AngbandlikeTrace(u32::MAX, &p, &p, |_q: Point<i32>| true);
    assert!(r.0);
    assert_eq!(r.1, vec![p]);
}

#[test]
fn trace_reaches_target_when_everything_passes() {
    let from = Point { x: 0i32, y: 0i32 };
    for to in [
        Point { x: 5, y: 2 },
        Point { x: -3, y: 9 },
        Point { x: 10, y: 1 },
        Point { x: 0, y: -6 },
        Point { x: -4, y: -4 },
        Point { x: 7, y: -2 },
    ] {
        let r = AngbandlikeTrace(u32::MAX, &from, &to, |_q: Point<i32>| true);
        assert!(r.0);
        assert_eq!(*r.1.last().unwrap(), to);
        assert_eq!(r.1[0], from);
        // every consecutive pair is one compass step apart
        for w in r.1.windows(2) {
            let dx = (w[1].x - w[0].x).abs();
            let dy = (w[1].y - w[0].y).abs();
            assert!(dx <= 1 && dy <= 1 && (dx, dy) != (0, 0));
        }
    }
}

#[test]
fn trace_aborts_at_first_rejected_cell() {
    let from = Point { x: 0i32, y: 0i32 };
    let to = Point { x: 3i32, y: 0i32 };
    let r = AngbandlikeTrace(u32::MAX, &from, &to, |q: Point<i32>| !(q.x == 2 && q.y == 0));
    assert!(!r.0);
    assert_eq!(r.1, vec![Point { x: 0, y: 0 }, Point { x: 1, y: 0 }]);
}

#[test]
fn trace_respects_step_budget() {
    let from = Point { x: 0i32, y: 0i32 };
    let to = Point { x: 10i32, y: 0i32 };
    let r = AngbandlikeTrace(4, &from, &to, |_q: Point<i32>| true);
    assert!(!r.0);
    assert_eq!(r.1.len(), 5);
    assert_eq!(*r.1.last().unwrap(), Point { x: 4, y: 0 });
    // a zero budget visits only the origin and cannot reach a distinct
    // target
    let r0 = AngbandlikeTrace(0, &from, &to, |_q: Point<i32>| true);
    assert!(!r0.0);
    assert_eq!(r0.1, vec![from]);
    let r_self = AngbandlikeTrace(0, &from, &from, |_q: Point<i32>| true);
    assert!(r_self.0);
    assert_eq!(r_self.1, vec![from]);
}

#[test]
fn trace_knight_move_commits_to_diagonal_first_order() {
    // tie at (2,1); rejecting the cardinal probe (1,0) commits the walk
    // to the diagonal-first reading
    let from = Point { x: 0i32, y: 0i32 };
    let to = Point { x: 2i32, y: 1i32 };
    let r = AngbandlikeTrace(u32::MAX, &from, &to, |q: Point<i32>| !(q.x == 1 && q.y == 0));
    assert!(r.0);
    assert_eq!(r.1, vec![Point { x: 0, y: 0 }, Point { x: 1, y: 1 }, Point { x: 2, y: 1 }]);
}

#[test]
fn trace_knight_move_rewrites_earlier_tied_steps() {
    // (0,0) -> (4,2) ties twice; a rejection at the second tie's cardinal
    // probe (3,1) retroactively rewrites the first tied step from (1,0)
    // to (1,1) so the whole path reads diagonal-first
    let from = Point { x: 0i32, y: 0i32 };
    let to = Point { x: 4i32, y: 2i32 };
    let r = AngbandlikeTrace(u32::MAX, &from, &to, |q: Point<i32>| !(q.x == 3 && q.y == 1));
    assert!(r.0);
    assert_eq!(
        r.1,
        vec![
            Point { x: 0, y: 0 },
            Point { x: 1, y: 1 },
            Point { x: 2, y: 1 },
            Point { x: 3, y: 2 },
            Point { x: 4, y: 2 }
        ]
    );
}

#[test]
fn trace_knight_move_keeps_cardinal_first_when_both_pass() {
    let from = Point { x: 0i32, y: 0i32 };
    let to = Point { x: 2i32, y: 1i32 };
    let r = AngbandlikeTrace(u32::MAX, &from, &to, |_q: Point<i32>| true);
    assert!(r.0);
    assert_eq!(r.1, vec![Point { x: 0, y: 0 }, Point { x: 1, y: 0 }, Point { x: 2, y: 1 }]);
}

#[test]
fn norm_is_absolute_value() {
    assert_eq!(5i32.norm(), 5u32);
    assert_eq!((-5i32).norm(), 5u32);
    assert_eq!(i32::MIN.norm(), 2147483648u32);
    assert_eq!((-9i64).norm(), 9u64);
    assert_eq!(i64::MIN.norm(), 9223372036854775808u64);
}

#[test]
fn min_max_across_widths() {
    let big: u64 = 1 << 40;
    assert_eq!(big.Min(7u32), 7u32);
    assert_eq!(10u64.Min(7u32), 7u32);
    assert_eq!(3u64.Min(7u32), 3u32);
    assert_eq!(3u64.Max(7u32), 7u64);
    assert_eq!(big.Max(7u32), big);
}

#[test]
fn rearrange_sum_moves_and_saturates() {
    let mut a: i32 = -5;
    let mut b: usize = 10;
    a.rearrange_sum(&mut b);
    assert_eq!((a, b), (5, 0));

    let mut c: i32 = i32::MAX - 2;
    let mut d: usize = 10;
    c.rearrange_sum(&mut d);
    assert_eq!((c, d), (i32::MAX, 8));

    let mut e: i32 = 1;
    e.AddAssign(3usize);
    assert_eq!(e, 4);
    let mut f: i32 = i32::MAX;
    f.AddAssign(3usize);
    assert_eq!(f, i32::MAX);
}

#[test]
fn rect_accessors_and_anchors() {
    let r = Rect::new([2, 3], [10, 6]);
    assert_eq!(r.width(), 10);
    assert_eq!(r.height(), 6);
    assert_eq!(r.center(), [7, 6]);
    assert_eq!(r.anchor(Compass::NW), [2, 3]);
    assert_eq!(r.anchor(Compass::SE), [12, 9]);
    assert_eq!(r.anchor(Compass::N), [7, 3]);
    assert_eq!(r.anchor(Compass::W), [2, 6]);
}

#[test]
fn rect_align_to_matches_anchors() {
    let mut a = Rect::new([0, 0], [4, 4]);
    let b = Rect::new([10, 10], [6, 6]);
    a.align_to(Compass::NW, &b, Compass::NE);
    assert_eq!(a.anchor(Compass::NW), b.anchor(Compass::NE));
}

#[test]
fn rect_split_east_draws_cut_in_range() {
    let mut rng = isk::rng::seeded_rng(42);
    let mut r = Rect::new([0, 0], [10, 6]);
    let piece = r.split(&mut rng, Compass::E, 3, 7).unwrap();
    let cut = r.width();
    assert!((3..7).contains(&cut));
    assert_eq!(piece.width(), 10 - cut);
    assert_eq!(piece.height(), 6);
    assert_eq!(piece.anchor(Compass::NW), [cut as i32, 0]);
    // the unimplemented orders change nothing and yield nothing
    let mut r2 = Rect::new([0, 0], [10, 6]);
    assert!(r2.split(&mut rng, Compass::N, 1, 5).is_none());
    assert_eq!(r2, Rect::new([0, 0], [10, 6]));
}

#[test]
fn rect_split_south_shrinks_in_place() {
    let mut rng = isk::rng::seeded_rng(7);
    let mut r = Rect::new([5, 5], [8, 9]);
    let piece = r.split(&mut rng, Compass::S, 2, 8).unwrap();
    let cut = r.height();
    assert!((2..8).contains(&cut));
    assert_eq!(r.width(), 8);
    assert_eq!(piece.height(), 9 - cut);
    assert_eq!(piece.anchor(Compass::NW), [5, 5 + cut as i32]);
}

#[test]
fn diag_decodes_sign_pairs() {
    assert_eq!(_diag(-4), Compass::NW);
    assert_eq!(_diag(-2), Compass::SW);
    assert_eq!(_diag(2), Compass::NE);
    assert_eq!(_diag(4), Compass::SE);
}

#[test]
fn heading_step_reduces_chebyshev_distance() {
    // the primary heading always strictly shrinks the Chebyshev distance,
    // and a reported alternate shrinks it exactly as much
    let cheb = |dx: i64, dy: i64| dx.abs().max(dy.abs());
    for dx in -6i64..=6 {
        for dy in -6i64..=6 {
            if dx == 0 && dy == 0 {
                continue;
            }
            let (d, alt) = heading_of_delta(dx, dy).unwrap();
            let v = compass_to_unit_vector(d);
            let after = cheb(dx - v.x as i64, dy - v.y as i64);
            assert!(after < cheb(dx, dy));
            if let Some(a) = alt {
                let w = compass_to_unit_vector(a);
                assert_eq!(cheb(dx - w.x as i64, dy - w.y as i64), after);
            }
        }
    }
}

#[test]
fn point_arithmetic_widens() {
    let a = Point { x: i32::MAX, y: i32::MIN };
    let b = Point { x: 1i32, y: -1i32 };
    let s = a.add(b);
    assert_eq!((s.x, s.y), (i32::MAX as i64 + 1, i32::MIN as i64 - 1));
    let d = a.sub(b);
    assert_eq!((d.x, d.y), (i32::MAX as i64 - 1, i32::MIN as i64 + 1));
    let stepped = Point { x: 3i32, y: 4i32 }.step(Compass::NW);
    assert_eq!(stepped, Point { x: 2, y: 3 });
}

//! Coordinate model: integer 2D points and the eight-way compass.

use vstd::prelude::*;

verus! {

use crate::numerics::{Norm, Rearrange};
use crate::UnaryConstruct;

/// A pair of integer coordinates; `x` grows eastward, `y` grows southward.
#[derive(Clone, Copy, Debug, PartialEq, Eq, Structural)]
pub struct Point<T> {
    pub x: T,
    pub y: T,
}

/// One of the eight discrete grid directions. North is toward smaller `y`.
#[derive(Clone, Copy, Debug, PartialEq, Eq, Structural)]
pub enum Compass {
    N,
    NE,
    E,
    SE,
    S,
    SW,
    W,
    NW,
}

/// The index of a direction: N is 0, then clockwise through 7 for NW.
pub open spec fn compass_index(d: Compass) -> int {
    match d {
        Compass::N => 0,
        Compass::NE => 1,
        Compass::E => 2,
        Compass::SE => 3,
        Compass::S => 4,
        Compass::SW => 5,
        Compass::W => 6,
        Compass::NW => 7,
    }
}

/// The unit displacement vector of a direction, as (x, y).
pub open spec fn compass_vector(d: Compass) -> (int, int) {
    match d {
        Compass::N => (0, -1),
        Compass::NE => (1, -1),
        Compass::E => (1, 0),
        Compass::SE => (1, 1),
        Compass::S => (0, 1),
        Compass::SW => (-1, 1),
        Compass::W => (-1, 0),
        Compass::NW => (-1, -1),
    }
}

impl Compass {
    /// The index of this direction, 0 through 7, N = 0 clockwise.
    pub fn to_index(self) -> (r: i32)
        ensures
            r == compass_index(self),
    {
        match self {
            Compass::N => 0,
            Compass::NE => 1,
            Compass::E => 2,
            Compass::SE => 3,
            Compass::S => 4,
            Compass::SW => 5,
            Compass::W => 6,
            Compass::NW => 7,
        }
    }

    /// The inverse of `to_index`; fails outside 0..=7.
    pub fn try_from(src: i32) -> (r: Result<Compass, crate::Error>)
        ensures
            0 <= src <= 7 ==> (r matches Ok(d) && compass_index(d) == src),
            !(0 <= src <= 7) ==> r is Err,
    {
        match src {
            0 => Ok(Compass::N),
            1 => Ok(Compass::NE),
            2 => Ok(Compass::E),
            3 => Ok(Compass::SE),
            4 => Ok(Compass::S),
            5 => Ok(Compass::SW),
            6 => Ok(Compass::W),
            7 => Ok(Compass::NW),
            _ => Err(crate::Error { desc: "out of range; try %8 before converting to Compass".to_string() }),
        }
    }
}

/// The unit displacement vector of a compass direction.
pub fn compass_to_unit_vector(d: Compass) -> (r: Point<i32>)
    ensures
        (r.x as int, r.y as int) == compass_vector(d),
{
    match d {
        Compass::N => Point { x: 0, y: -1 },
        Compass::NE => Point { x: 1, y: -1 },
        Compass::E => Point { x: 1, y: 0 },
        Compass::SE => Point { x: 1, y: 1 },
        Compass::S => Point { x: 0, y: 1 },
        Compass::SW => Point { x: -1, y: 1 },
        Compass::W => Point { x: -1, y: 0 },
        Compass::NW => Point { x: -1, y: -1 },
    }
}

/// The inverse of `compass_to_unit_vector`; fails unless the argument is
/// exactly one of the eight unit vectors.
pub fn unit_vector_to_compass(src: Point<i64>) -> (r: Result<Compass, ()>)
    ensures
        r matches Ok(d) ==> compass_vector(d) == (src.x as int, src.y as int),
        r is Err ==> forall|d: Compass| compass_vector(d) != (src.x as int, src.y as int),
{
    match (src.x, src.y) {
        (-1, -1) => Ok(Compass::NW),
        (-1, 0) => Ok(Compass::W),
        (-1, 1) => Ok(Compass::SW),
        (0, -1) => Ok(Compass::N),
        (0, 1) => Ok(Compass::S),
        (1, -1) => Ok(Compass::NE),
        (1, 0) => Ok(Compass::E),
        (1, 1) => Ok(Compass::SE),
        _ => {
            proof {
                assert forall|d: Compass| compass_vector(d) != (src.x as int, src.y as int) by {
                    match d {
                        _ => {}
                    }
                }
            }
            Err(())
        },
    }
}

/// Round trip: converting a direction to its unit vector and back yields
/// the same direction.
pub proof fn lemma_compass_vector_round_trip(d: Compass)
    ensures
        forall|e: Compass| compass_vector(e) == compass_vector(d) ==> e == d,
{
    assert forall|e: Compass| compass_vector(e) == compass_vector(d) implies e == d by {
        match (d, e) {
            _ => {}
        }
    }
}

/// n scaled by a unit factor c drawn from {-1, 0, 1}; kept linear so the
/// solver never needs nonlinear reasoning about step vectors.
pub open spec fn mul_unit(n: int, c: int) -> int {
    if c == 1 {
        n
    } else if c == -1 {
        -n
    } else {
        0
    }
}

/// n * c for a unit component c.
pub fn scale_unit(n: i64, c: i32) -> (r: i64)
    requires
        -1 <= c <= 1,
        -0x4000_0000_0000_0000 <= n <= 0x4000_0000_0000_0000,
    ensures
        r == mul_unit(n as int, c as int),
{
    if c == 1 {
        n
    } else if c == -1 {
        -n
    } else {
        0
    }
}

impl Point<i32> {
    /// One cell over in direction `d`; the destination must fit in `i32`.
    pub fn step(self, d: Compass) -> (r: Point<i32>)
        requires
            i32::MIN <= self.x + compass_vector(d).0 <= i32::MAX,
            i32::MIN <= self.y + compass_vector(d).1 <= i32::MAX,
        ensures
            r.x == self.x + compass_vector(d).0,
            r.y == self.y + compass_vector(d).1,
    {
        let v = compass_to_unit_vector(d);
        Point { x: self.x + v.x, y: self.y + v.y }
    }

    /// Component-wise sum, widened so it never overflows.
    pub fn add(self, src: Point<i32>) -> (r: Point<i64>)
        ensures
            r.x == self.x + src.x,
            r.y == self.y + src.y,
    {
        Point { x: self.x as i64 + src.x as i64, y: self.y as i64 + src.y as i64 }
    }

    /// Component-wise difference, widened so it never overflows.
    pub fn sub(self, src: Point<i32>) -> (r: Point<i64>)
        ensures
            r.x == self.x - src.x,
            r.y == self.y - src.y,
    {
        Point { x: self.x as i64 - src.x as i64, y: self.y as i64 - src.y as i64 }
    }
}

pub open spec fn abs_int(x: int) -> int {
    if x >= 0 {
        x
    } else {
        -x
    }
}

/// Chebyshev distance of a displacement: the larger axis magnitude.
pub open spec fn cheb(dx: int, dy: int) -> int {
    if abs_int(dx) >= abs_int(dy) {
        abs_int(dx)
    } else {
        abs_int(dy)
    }
}

/// The diagonal direction with signs (sx, sy); both must be nonzero.
pub open spec fn diag_of(sx: int, sy: int) -> Compass {
    if sx < 0 {
        if sy < 0 {
            Compass::NW
        } else {
            Compass::SW
        }
    } else {
        if sy < 0 {
            Compass::NE
        } else {
            Compass::SE
        }
    }
}

/// The heading of a displacement. A zero displacement has none. A
/// displacement on an axis gets that axis's cardinal direction. Otherwise,
/// with `dominant` the larger axis magnitude and `secondary` twice the
/// smaller: equal magnitudes or `secondary < dominant` give the exact
/// diagonal; `secondary == dominant` gives the dominant axis's cardinal
/// direction with the diagonal as an equally valid alternate (the
/// knight-move tie); `secondary > dominant` gives the cardinal alone.
pub open spec fn heading_spec(dx: int, dy: int) -> Option<(Compass, Option<Compass>)> {
    if dx == 0 && dy == 0 {
        None
    } else if dx == 0 {
        Some((if dy < 0 { Compass::N } else { Compass::S }, None))
    } else if dy == 0 {
        Some((if dx < 0 { Compass::W } else { Compass::E }, None))
    } else {
        let adx = abs_int(dx);
        let ady = abs_int(dy);
        let diag = diag_of(dx, dy);
        if adx == ady {
            Some((diag, None))
        } else {
            let dominant = if adx >= ady { adx } else { ady };
            let secondary = 2 * (if adx <= ady { adx } else { ady });
            if secondary < dominant {
                Some((diag, None))
            } else {
                let card = if adx > ady {
                    if dx < 0 { Compass::W } else { Compass::E }
                } else {
                    if dy < 0 { Compass::N } else { Compass::S }
                };
                if secondary == dominant {
                    Some((card, Some(diag)))
                } else {
                    Some((card, None))
                }
            }
        }
    }
}

/// The primary heading alone.
pub open spec fn heading_primary(dx: int, dy: int) -> Option<Compass> {
    match heading_spec(dx, dy) {
        None => None,
        Some((d, _)) => Some(d),
    }
}

/// Largest displacement magnitude the doubling in the heading computation
/// tolerates without overflowing a 64-bit intermediate.
pub open spec fn delta_fits(dx: int, dy: int) -> bool {
    abs_int(dx) < 0x4000_0000_0000_0000 && abs_int(dy) < 0x4000_0000_0000_0000
}

/// The heading of the displacement (dx, dy), with the tied alternate.
pub fn heading_of_delta(dx: i64, dy: i64) -> (r: Option<(Compass, Option<Compass>)>)
    requires
        delta_fits(dx as int, dy as int),
    ensures
        r == heading_spec(dx as int, dy as int),
{
    if dx == 0 && dy == 0 {
        return None;
    }
    if dx == 0 {
        return Some(((if dy < 0 { Compass::N } else { Compass::S }), None));
    }
    if dy == 0 {
        return Some(((if dx < 0 { Compass::W } else { Compass::E }), None));
    }
    let adx = dx.norm();
    let ady = dy.norm();
    let diag = if dx < 0 {
        if dy < 0 { Compass::NW } else { Compass::SW }
    } else {
        if dy < 0 { Compass::NE } else { Compass::SE }
    };
    if adx == ady {
        return Some((diag, None));
    }
    let dominant = if adx >= ady { adx } else { ady };
    let secondary = 2 * (if adx <= ady { adx } else { ady });
    if secondary < dominant {
        return Some((diag, None));
    }
    let card = if adx > ady {
        if dx < 0 { Compass::W } else { Compass::E }
    } else {
        if dy < 0 { Compass::N } else { Compass::S }
    };
    if secondary == dominant {
        Some((card, Some(diag)))
    } else {
        Some((card, None))
    }
}


/// The diagonal direction encoded by 3 * sgn(dx) + sgn(dy) when both
/// signs are nonzero.
#[allow(non_snake_case)]
pub fn _diag(code: i8) -> (r: Compass)
    requires
        code == -4 || code == -2 || code == 2 || code == 4,
    ensures
        compass_vector(r) == (sgn_int(code as int), code - 3 * sgn_int(code as int)),
{
    match code {
        -4 => Compass::NW,
        -2 => Compass::SW,
        2 => Compass::NE,
        _ => Compass::SE,
    }
}

/// The sign of an integer.
pub open spec fn sgn_int(x: int) -> int {
    if x > 0 {
        1
    } else if x < 0 {
        -1
    } else {
        0
    }
}

/// Resolving a displacement into a primary direction, plus an equally valid
/// alternate when the knight-move tie arises.
pub trait Pathfinder<RHS = Self> {
    /// The displacement from `self` to `to`.
    spec fn delta_to(&self, to: &RHS) -> (int, int);

    /// Whether the displacement is small enough for the doubled arithmetic.
    spec fn heading_fits(&self, to: &RHS) -> bool;

    fn compass_heading_full(&self, to: &RHS) -> (r: Option<(Compass, Option<Compass>)>)
        requires
            self.heading_fits(to),
        ensures
            r == heading_spec(self.delta_to(to).0, self.delta_to(to).1),
    ;

    fn compass_heading(&self, to: &RHS) -> (r: Option<Compass>)
        requires
            self.heading_fits(to),
        ensures
            r == heading_primary(self.delta_to(to).0, self.delta_to(to).1),
    ;
}

impl Pathfinder for Point<i32> {
    open spec fn delta_to(&self, to: &Point<i32>) -> (int, int) {
        (to.x - self.x, to.y - self.y)
    }

    open spec fn heading_fits(&self, to: &Point<i32>) -> bool {
        true
    }

    fn compass_heading_full(&self, to: &Point<i32>) -> (r: Option<(Compass, Option<Compass>)>)
        ensures
            r == heading_spec(self.delta_to(to).0, self.delta_to(to).1),
    {
        heading_of_delta(to.x as i64 - self.x as i64, to.y as i64 - self.y as i64)
    }

    fn compass_heading(&self, to: &Point<i32>) -> (r: Option<Compass>)
        ensures
            r == heading_primary(self.delta_to(to).0, self.delta_to(to).1),
    {
        match heading_of_delta(to.x as i64 - self.x as i64, to.y as i64 - self.y as i64) {
            None => None,
            Some((d, _)) => Some(d),
        }
    }
}

impl Pathfinder<Point<i32>> for Point<i64> {
    open spec fn delta_to(&self, to: &Point<i32>) -> (int, int) {
        (to.x - self.x, to.y - self.y)
    }

    open spec fn heading_fits(&self, to: &Point<i32>) -> bool {
        delta_fits(to.x - self.x, to.y - self.y)
            && i64::MIN <= to.x - self.x <= i64::MAX
            && i64::MIN <= to.y - self.y <= i64::MAX
    }

    fn compass_heading_full(&self, to: &Point<i32>) -> (r: Option<(Compass, Option<Compass>)>)
        ensures
            r == heading_spec(self.delta_to(to).0, self.delta_to(to).1),
    {
        heading_of_delta(to.x as i64 - self.x, to.y as i64 - self.y)
    }

    fn compass_heading(&self, to: &Point<i32>) -> (r: Option<Compass>)
        ensures
            r == heading_primary(self.delta_to(to).0, self.delta_to(to).1),
    {
        match heading_of_delta(to.x as i64 - self.x, to.y as i64 - self.y) {
            None => None,
            Some((d, _)) => Some(d),
        }
    }
}

/// A displacement resolves to a direction exactly when it is nonzero, one
/// unit step in the primary direction strictly reduces the Chebyshev
/// distance to the target, and when an alternate is reported, stepping
/// along it reduces that distance exactly as much as the primary step.
pub proof fn lemma_heading_reduces_chebyshev(dx: int, dy: int)
    requires
        dx != 0 || dy != 0,
    ensures
        heading_spec(dx, dy) is Some,
        heading_spec(dx, dy) matches Some((d, alt)) ==> cheb(
            dx - compass_vector(d).0,
            dy - compass_vector(d).1,
        ) < cheb(dx, dy),
        heading_spec(dx, dy) matches Some((d, Some(a))) ==> cheb(
            dx - compass_vector(a).0,
            dy - compass_vector(a).1,
        ) == cheb(dx - compass_vector(d).0, dy - compass_vector(d).1),
{
}


/// Saturating sum of a coordinate and a non-negative extent, capped at the
/// largest representable coordinate.
pub open spec fn sat_add(s: int, r: int) -> int {
    if s + r <= i32::MAX {
        s + r
    } else {
        i32::MAX as int
    }
}

/// An axis-aligned rectangle: an origin corner plus a non-negative extent.
#[derive(Debug, Clone, PartialEq, Eq, Structural)]
pub struct Rect {
    pub _origin: Point<i32>,
    pub _dim: Point<usize>,
}

/// The named anchor of a rectangle: one of the eight compass points on its
/// boundary, with coordinates saturating at the coordinate maximum.
pub open spec fn anchor_spec(r: Rect, dir: Compass) -> (int, int) {
    let ox = r._origin.x as int;
    let oy = r._origin.y as int;
    let w = r._dim.x as int;
    let h = r._dim.y as int;
    match dir {
        Compass::N => (sat_add(ox, w / 2), oy),
        Compass::NE => (sat_add(ox, w), oy),
        Compass::E => (sat_add(ox, w), sat_add(oy, h / 2)),
        Compass::SE => (sat_add(ox, w), sat_add(oy, h)),
        Compass::S => (sat_add(ox, w / 2), sat_add(oy, h)),
        Compass::SW => (ox, sat_add(oy, h)),
        Compass::W => (ox, sat_add(oy, h / 2)),
        Compass::NW => (ox, oy),
    }
}

impl Rect {
    /// The horizontal extent.
    pub fn width(&self) -> (r: usize)
        ensures
            r == self._dim.x,
    {
        self._dim.x
    }

    /// The vertical extent.
    pub fn height(&self) -> (r: usize)
        ensures
            r == self._dim.y,
    {
        self._dim.y
    }

    pub fn new(o: [i32; 2], d: [usize; 2]) -> (r: Rect)
        ensures
            r._origin.x == o[0] && r._origin.y == o[1],
            r._dim.x == d[0] && r._dim.y == d[1],
    {
        Rect { _origin: Point { x: o[0], y: o[1] }, _dim: Point { x: d[0], y: d[1] } }
    }

    /// Shifts the origin by a displacement.
    pub fn add_assign(&mut self, src: [i32; 2])
        requires
            i32::MIN <= old(self)._origin.x + src[0] <= i32::MAX,
            i32::MIN <= old(self)._origin.y + src[1] <= i32::MAX,
        ensures
            final(self)._origin.x == old(self)._origin.x + src[0],
            final(self)._origin.y == old(self)._origin.y + src[1],
            final(self)._dim == old(self)._dim,
    {
        self._origin.x = self._origin.x + src[0];
        self._origin.y = self._origin.y + src[1];
    }

    /// The center point, saturating at the coordinate maximum.
    pub fn center(&self) -> (r: [i32; 2])
        ensures
            r[0] == sat_add(self._origin.x as int, self._dim.x as int / 2),
            r[1] == sat_add(self._origin.y as int, self._dim.y as int / 2),
    {
        let mut x = self._origin.x;
        let mut y = self._origin.y;
        let mut dx = self._dim.x / 2;
        let mut dy = self._dim.y / 2;
        x.rearrange_sum(&mut dx);
        y.rearrange_sum(&mut dy);
        [x, y]
    }

    /// The named anchor point for a direction.
    pub fn anchor(&self, dir: Compass) -> (r: [i32; 2])
        ensures
            r[0] == anchor_spec(*self, dir).0,
            r[1] == anchor_spec(*self, dir).1,
    {
        let mut x = self._origin.x;
        let mut y = self._origin.y;
        match dir {
            Compass::N => {
                x.AddAssign(self._dim.x / 2);
            },
            Compass::NE => {
                x.AddAssign(self._dim.x);
            },
            Compass::E => {
                x.AddAssign(self._dim.x);
                y.AddAssign(self._dim.y / 2);
            },
            Compass::SE => {
                x.AddAssign(self._dim.x);
                y.AddAssign(self._dim.y);
            },
            Compass::S => {
                x.AddAssign(self._dim.x / 2);
                y.AddAssign(self._dim.y);
            },
            Compass::SW => {
                y.AddAssign(self._dim.y);
            },
            Compass::W => {
                y.AddAssign(self._dim.y / 2);
            },
            Compass::NW => {},
        }
        [x, y]
    }

    /// Translates this rectangle so its `my_dir` anchor coincides with
    /// `other`'s `other_dir` anchor.
    pub fn align_to(&mut self, my_dir: Compass, other: &Rect, other_dir: Compass)
        requires
            i32::MIN <= old(self)._origin.x + anchor_spec(*other, other_dir).0 - anchor_spec(
                *old(self),
                my_dir,
            ).0 <= i32::MAX,
            i32::MIN <= old(self)._origin.y + anchor_spec(*other, other_dir).1 - anchor_spec(
                *old(self),
                my_dir,
            ).1 <= i32::MAX,
        ensures
            final(self)._origin.x == old(self)._origin.x + anchor_spec(*other, other_dir).0
                - anchor_spec(*old(self), my_dir).0,
            final(self)._origin.y == old(self)._origin.y + anchor_spec(*other, other_dir).1
                - anchor_spec(*old(self), my_dir).1,
            final(self)._dim == old(self)._dim,
    {
        let my_guess = self.anchor(my_dir);
        let other_anchor = other.anchor(other_dir);
        let nx: i64 = self._origin.x as i64 + (other_anchor[0] as i64 - my_guess[0] as i64);
        let ny: i64 = self._origin.y as i64 + (other_anchor[1] as i64 - my_guess[1] as i64);
        self._origin.x = nx as i32;
        self._origin.y = ny as i32;
    }

    /// Splits off a piece along the given cardinal axis at a cut drawn
    /// uniformly from `lb..ub`, shrinking this rectangle in place. Splits
    /// toward the east or south return the split-off piece; the north and
    /// west orders are not implemented and return nothing, leaving the
    /// rectangle unchanged.
    pub fn split(
        &mut self,
        r: &mut rand_xoshiro::Xoshiro256PlusPlus,
        dir: Compass,
        lb: usize,
        ub: usize,
    ) -> (ret: Option<Rect>)
        requires
            dir == Compass::N || dir == Compass::E || dir == Compass::S || dir == Compass::W,
            1 <= lb < ub,
            ub <= i32::MAX,
            dir == Compass::E || dir == Compass::W ==> ub < old(self)._dim.x,
            dir == Compass::N || dir == Compass::S ==> ub < old(self)._dim.y,
            dir == Compass::E ==> old(self)._origin.x + ub <= i32::MAX,
            dir == Compass::S ==> old(self)._origin.y + ub <= i32::MAX,
        ensures
            dir == Compass::N || dir == Compass::W ==> ret is None && *final(self) == *old(self),
            dir == Compass::E ==> (ret matches Some(piece) && {
                &&& lb <= final(self)._dim.x < ub
                &&& final(self)._dim.y == old(self)._dim.y
                &&& final(self)._origin == old(self)._origin
                &&& piece._origin.x == old(self)._origin.x + final(self)._dim.x
                &&& piece._origin.y == old(self)._origin.y
                &&& piece._dim.x == old(self)._dim.x - final(self)._dim.x
                &&& piece._dim.y == old(self)._dim.y
            }),
            dir == Compass::S ==> (ret matches Some(piece) && {
                &&& lb <= final(self)._dim.y < ub
                &&& final(self)._dim.x == old(self)._dim.x
                &&& final(self)._origin == old(self)._origin
                &&& piece._origin.x == old(self)._origin.x
                &&& piece._origin.y == old(self)._origin.y + final(self)._dim.y
                &&& piece._dim.x == old(self)._dim.x
                &&& piece._dim.y == old(self)._dim.y - final(self)._dim.y
            }),
    {
        let cut = crate::rng::draw_in_range(r, lb, ub);
        let i_cut = cut as i32;
        match dir {
            Compass::E => {
                let ret = Rect::new(
                    [self._origin.x + i_cut, self._origin.y],
                    [self._dim.x - cut, self._dim.y],
                );
                self._dim.x = cut;
                Some(ret)
            },
            Compass::S => {
                let ret = Rect::new(
                    [self._origin.x, self._origin.y + i_cut],
                    [self._dim.x, self._dim.y - cut],
                );
                self._dim.y = cut;
                Some(ret)
            },
            _ => None,
        }
    }
}


impl UnaryConstruct<[i32; 2]> for Point<i32> {
    fn new(src: [i32; 2]) -> Self {
        Point { x: src[0], y: src[1] }
    }
}

impl UnaryConstruct<[i64; 2]> for Point<i64> {
    fn new(src: [i64; 2]) -> Self {
        Point { x: src[0], y: src[1] }
    }
}

/// A map handle plus a position inside that map's coordinate space.
/// Arithmetic never checks bounds; the world validates boundedness
/// separately.
#[derive(Clone, Copy, Debug, PartialEq, Eq)]
pub struct Location {
    pub map: usize,
    pub pos: [i32; 2],
}

impl Location {
    pub fn new(m: usize, p: [i32; 2]) -> (r: Location)
        ensures
            r.map == m,
            r.pos == p,
    {
        Location { map: m, pos: p }
    }

    /// This location displaced by a vector, in the same map space.
    pub fn add(self, delta: [i32; 2]) -> (r: Location)
        requires
            i32::MIN <= self.pos[0] + delta[0] <= i32::MAX,
            i32::MIN <= self.pos[1] + delta[1] <= i32::MAX,
        ensures
            r.map == self.map,
            r.pos[0] == self.pos[0] + delta[0],
            r.pos[1] == self.pos[1] + delta[1],
    {
        Location { map: self.map, pos: [self.pos[0] + delta[0], self.pos[1] + delta[1]] }
    }

    /// This location one compass step over, in the same map space.
    pub fn add_compass(self, delta: Compass) -> (r: Location)
        requires
            i32::MIN <= self.pos[0] + compass_vector(delta).0 <= i32::MAX,
            i32::MIN <= self.pos[1] + compass_vector(delta).1 <= i32::MAX,
        ensures
            r.map == self.map,
            r.pos[0] == self.pos[0] + compass_vector(delta).0,
            r.pos[1] == self.pos[1] + compass_vector(delta).1,
    {
        let v = compass_to_unit_vector(delta);
        Location { map: self.map, pos: [self.pos[0] + v.x, self.pos[1] + v.y] }
    }
}

/// The flattened index of the cell (x, y) on a grid of width w.
pub open spec fn flat_idx(w: int, x: int, y: int) -> int {
    x + y * w
}

/// A cell's flattened index lies inside the w-by-h grid's backing store.
pub proof fn lemma_flat_idx_bounds(w: int, h: int, x: int, y: int) by (nonlinear_arith)
    requires
        0 <= x < w,
        0 <= y < h,
    ensures
        0 <= flat_idx(w, x, y) < w * h,
{
}

/// One playing field of the game world: a rectangular grid of terrain, a
/// sparse object placement per cell, and the ordered list of live actors
/// standing on it. Terrain, object and actor kinds are handles into the
/// world's arenas.
pub struct GameMap {
    pub dim: [usize; 2],
    pub name: String,
    pub actors: Vec<crate::Actor>,
    pub objects: Vec<Option<crate::MapObject>>,
    pub terrain: Vec<usize>,
}

impl GameMap {
    /// Structural soundness: the extents fit signed 32-bit coordinates and
    /// both per-cell stores cover the grid exactly.
    pub open spec fn wf(self) -> bool {
        &&& self.dim[0] <= i32::MAX
        &&& self.dim[1] <= i32::MAX
        &&& self.terrain@.len() == self.dim[0] * self.dim[1]
        &&& self.objects@.len() == self.dim[0] * self.dim[1]
    }

    /// Whether (x, y) lies on the grid.
    pub open spec fn in_bounds_spec(self, x: int, y: int) -> bool {
        0 <= x < self.dim[0] && 0 <= y < self.dim[1]
    }

    /// Every terrain handle stored on the grid is below n.
    pub open spec fn terrain_ids_ok(self, n: int) -> bool {
        forall|i: int| 0 <= i < self.terrain@.len() ==> self.terrain@[i] < n
    }

    /// Every placed object's kind handle is below n.
    pub open spec fn object_ids_ok(self, n: int) -> bool {
        forall|i: int| 0 <= i < self.objects@.len() ==> (#[trigger] self.objects@[i] matches Some(o)
            ==> o.model < n)
    }

    /// Every actor's kind handle is below n, its copied rate agrees with
    /// its kind, and the rate is positive.
    pub open spec fn actor_models_ok(self, models: Seq<crate::ActorModel>) -> bool {
        forall|i: int| 0 <= i < self.actors@.len() ==> {
            &&& (#[trigger] self.actors@[i]).model < models.len()
            &&& self.actors@[i].base_ap == models[self.actors@[i].model as int].base_AP
            &&& self.actors@[i].base_ap >= 1
        }
    }

    pub fn usize_cast(src: [i32; 2]) -> (r: [usize; 2])
        requires
            0 <= src[0],
            0 <= src[1],
        ensures
            r[0] == src[0],
            r[1] == src[1],
    {
        [src[0] as usize, src[1] as usize]
    }

    /// The backing-store index of an in-bounds cell.
    pub fn cell_index(&self, x: i32, y: i32) -> (r: usize)
        requires
            self.wf(),
            self.in_bounds_spec(x as int, y as int),
        ensures
            r == flat_idx(self.dim[0] as int, x as int, y as int),
            r < self.terrain@.len(),
    {
        let n = self.terrain.len();
        proof {
            lemma_flat_idx_bounds(self.dim[0] as int, self.dim[1] as int, x as int, y as int);
        }
        x as usize + y as usize * self.dim[0]
    }

    /// A fresh map of the given extent with every cell the given terrain.
    pub fn new(_name: &str, _dim: [i32; 2], _terrain: usize) -> (r: GameMap)
        requires
            0 <= _dim[0],
            0 <= _dim[1],
            _dim[0] * _dim[1] <= usize::MAX,
        ensures
            r.wf(),
            r.dim[0] == _dim[0] && r.dim[1] == _dim[1],
            r.name@ == _name@,
            r.actors@.len() == 0,
            forall|i: int| 0 <= i < r.objects@.len() ==> r.objects@[i] is None,
            forall|i: int| 0 <= i < r.terrain@.len() ==> r.terrain@[i] == _terrain,
    {
        let staging = GameMap::usize_cast(_dim);
        let n = staging[0] * staging[1];
        GameMap {
            name: _name.to_owned(),
            dim: staging,
            actors: Vec::new(),
            objects: vec![None; n],
            terrain: vec![_terrain; n],
        }
    }

    /// Adds a live actor of the given kind at the given location and
    /// returns its index in this map's actor list.
    pub fn new_actor(
        &mut self,
        models: &Vec<crate::ActorModel>,
        _model: usize,
        _loc: Location,
    ) -> (r: usize)
        requires
            _model < models@.len(),
        ensures
            r == old(self).actors@.len(),
            final(self).actors@.len() == old(self).actors@.len() + 1,
            final(self).actors@.last().model == _model,
            final(self).actors@.last().my_loc == _loc,
            final(self).actors@.last().base_ap == models@[_model as int].base_AP,
            final(self).actors@.last().ap == final(self).actors@.last().base_ap,
            final(self).actors@.last().is_pc == false,
            final(self).actors@.drop_last() == old(self).actors@,
            final(self).dim == old(self).dim,
            final(self).name == old(self).name,
            final(self).objects == old(self).objects,
            final(self).terrain == old(self).terrain,
    {
        let ret = self.actors.len();
        self.actors.push(crate::Actor::new(models, _model, _loc));
        ret
    }

    pub fn is_named(&self, x: &str) -> (r: bool)
        ensures
            r == (self.name@ == x@),
    {
        self.name == x.to_owned()
    }

    pub fn named(&self) -> (r: String)
        ensures
            r@ == self.name@,
    {
        self.name.clone()
    }

    pub fn width(&self) -> (r: usize)
        ensures
            r == self.dim[0],
    {
        self.dim[0]
    }

    pub fn height(&self) -> (r: usize)
        ensures
            r == self.dim[1],
    {
        self.dim[1]
    }

    pub fn width_i32(&self) -> (r: i32)
        requires
            self.wf(),
        ensures
            r == self.dim[0],
    {
        self.dim[0] as i32
    }

    pub fn height_i32(&self) -> (r: i32)
        requires
            self.wf(),
        ensures
            r == self.dim[1],
    {
        self.dim[1] as i32
    }

    pub fn in_bounds(&self, pt: [i32; 2]) -> (r: bool)
        ensures
            r == self.in_bounds_spec(pt[0] as int, pt[1] as int),
    {
        0 <= pt[0] && (pt[0] as usize) < self.dim[0] && 0 <= pt[1] && (pt[1] as usize)
            < self.dim[1]
    }

    /// Repaints one in-bounds cell's terrain.
    pub fn set_terrain(&mut self, pt: [i32; 2], src: usize)
        requires
            old(self).wf(),
            old(self).in_bounds_spec(pt[0] as int, pt[1] as int),
        ensures
            final(self).terrain@ == old(self).terrain@.update(
                flat_idx(old(self).dim[0] as int, pt[0] as int, pt[1] as int),
                src,
            ),
            final(self).dim == old(self).dim,
            final(self).name == old(self).name,
            final(self).actors == old(self).actors,
            final(self).objects == old(self).objects,
            final(self).wf(),
    {
        let i = self.cell_index(pt[0], pt[1]);
        self.terrain.set(i, src);
    }

    /// Places an object at its own recorded position, returning whatever
    /// object that cell held before.
    pub fn set_map_object(&mut self, src: crate::MapObject) -> (r: Option<crate::MapObject>)
        requires
            old(self).wf(),
            old(self).in_bounds_spec(src.my_loc.pos[0] as int, src.my_loc.pos[1] as int),
        ensures
            r == old(self).objects@[flat_idx(
                old(self).dim[0] as int,
                src.my_loc.pos[0] as int,
                src.my_loc.pos[1] as int,
            )],
            final(self).objects@ == old(self).objects@.update(
                flat_idx(old(self).dim[0] as int, src.my_loc.pos[0] as int, src.my_loc.pos[1] as int),
                Some(src),
            ),
            final(self).dim == old(self).dim,
            final(self).name == old(self).name,
            final(self).actors == old(self).actors,
            final(self).terrain == old(self).terrain,
            final(self).wf(),
    {
        let pos = src.my_loc.pos;
        let i = self.cell_index(pos[0], pos[1]);
        proof {
            assert(i < self.objects@.len());
        }
        let prior = self.objects[i];
        self.objects.set(i, Some(src));
        prior
    }

    /// The object on an in-bounds cell, if any.
    pub fn get_map_object(&self, pt: [i32; 2]) -> (r: Option<crate::MapObject>)
        requires
            self.wf(),
            self.in_bounds_spec(pt[0] as int, pt[1] as int),
        ensures
            r == self.objects@[flat_idx(self.dim[0] as int, pt[0] as int, pt[1] as int)],
    {
        let i = self.cell_index(pt[0], pt[1]);
        proof {
            assert(i < self.objects@.len());
        }
        self.objects[i]
    }
}


/// Whether the actor can stand on the cell: its terrain must be walkable
/// and any object on it must be walkable too.
pub open spec fn walkable_spec(
    m: GameMap,
    ts: Seq<crate::Terrain>,
    oms: Seq<crate::MapObjectModel>,
    x: int,
    y: int,
) -> bool {
    &&& ts[m.terrain@[flat_idx(m.dim[0] as int, x, y)] as int].walkable
    &&& (m.objects@[flat_idx(m.dim[0] as int, x, y)] matches Some(o) ==> oms[o.model as int].walkable)
}

/// Whether sight passes through (or ends on) the cell: it must be on the
/// grid, and unless it is the trace's destination, both its terrain and
/// any object on it must be transparent.
pub open spec fn vis_spec(
    m: GameMap,
    ts: Seq<crate::Terrain>,
    oms: Seq<crate::MapObjectModel>,
    tox: int,
    toy: int,
    p: Point<i32>,
) -> bool {
    &&& m.in_bounds_spec(p.x as int, p.y as int)
    &&& ((p.x == tox && p.y == toy) || {
        &&& ts[m.terrain@[flat_idx(m.dim[0] as int, p.x as int, p.y as int)] as int].transparent
        &&& (m.objects@[flat_idx(m.dim[0] as int, p.x as int, p.y as int)] matches Some(o)
            ==> oms[o.model as int].transparent)
    })
}

/// An unbroken line of sight: a chain of adjacent cells from one point to
/// another, every link of which admits sight toward the target.
pub open spec fn visible_chain(
    m: GameMap,
    ts: Seq<crate::Terrain>,
    oms: Seq<crate::MapObjectModel>,
    from: Point<i32>,
    to: Point<i32>,
    path: Seq<Point<i32>>,
) -> bool {
    &&& path.len() >= 1
    &&& path[0] == from
    &&& path.last() == to
    &&& forall|j: int| 0 < j < path.len() ==> crate::los::adjacent_step(
        path[j - 1],
        #[trigger] path[j],
    )
    &&& forall|j: int| 0 < j < path.len() ==> vis_spec(
        m,
        ts,
        oms,
        to.x as int,
        to.y as int,
        #[trigger] path[j],
    )
}

impl GameMap {
    /// Whether the actor may step onto the in-bounds cell `pt`.
    pub fn is_walkable_for(
        &self,
        terrains: &Vec<crate::Terrain>,
        obj_models: &Vec<crate::MapObjectModel>,
        pt: &[i32; 2],
        _who: &crate::Actor,
    ) -> (r: bool)
        requires
            self.wf(),
            self.in_bounds_spec(pt[0] as int, pt[1] as int),
            self.terrain_ids_ok(terrains@.len() as int),
            self.object_ids_ok(obj_models@.len() as int),
        ensures
            r == walkable_spec(*self, terrains@, obj_models@, pt[0] as int, pt[1] as int),
    {
        let i = self.cell_index(pt[0], pt[1]);
        if !terrains[self.terrain[i]].walkable {
            return false;
        }
        match self.get_map_object(*pt) {
            Some(obj) => obj_models[obj.model].walkable,
            None => true,
        }
    }

    /// Line of sight from `from` to `to`: whether the target was reached,
    /// and the cells visited on the way. A cell blocks sight if it is off
    /// the grid, its terrain is opaque, or it holds an opaque object — but
    /// the destination cell itself only needs to be on the grid.
    pub fn los(
        &self,
        terrains: &Vec<crate::Terrain>,
        obj_models: &Vec<crate::MapObjectModel>,
        from: &[i32; 2],
        to: &[i32; 2],
    ) -> (r: (bool, Vec<Point<i32>>))
        requires
            self.wf(),
            self.terrain_ids_ok(terrains@.len() as int),
            self.object_ids_ok(obj_models@.len() as int),
        ensures
            r.1@.len() >= 1,
            r.1@[0] == (Point { x: from[0], y: from[1] }),
            forall|j: int| 0 < j < r.1@.len() ==> crate::los::adjacent_step(
                r.1@[j - 1],
                #[trigger] r.1@[j],
            ),
            forall|j: int| 0 < j < r.1@.len() ==> vis_spec(
                *self,
                terrains@,
                obj_models@,
                to[0] as int,
                to[1] as int,
                #[trigger] r.1@[j],
            ),
            r.0 <==> r.1@.last() == (Point { x: to[0], y: to[1] }),
            !r.0 ==> exists|q: Point<i32>| crate::los::adjacent_step(r.1@.last(), q)
                && !vis_spec(*self, terrains@, obj_models@, to[0] as int, to[1] as int, q),
            r.0 ==> visible_chain(
                *self,
                terrains@,
                obj_models@,
                Point { x: from[0], y: from[1] },
                Point { x: to[0], y: to[1] },
                r.1@,
            ),
    {
        let tox: i32 = to[0];
        let toy: i32 = to[1];
        let is_visible = |x: Point<i32>| -> (b: bool)
            ensures
                b == vis_spec(*self, terrains@, obj_models@, tox as int, toy as int, x),
            {
                if !self.in_bounds([x.x, x.y]) {
                    return false;
                }
                if tox == x.x && toy == x.y {
                    return true;
                }
                let i = self.cell_index(x.x, x.y);
                if !terrains[self.terrain[i]].transparent {
                    return false;
                }
                match self.get_map_object([x.x, x.y]) {
                    Some(obj) => obj_models[obj.model].transparent,
                    None => true,
                }
            };
        let res = crate::los::AngbandlikeTrace(
            u32::MAX,
            &Point { x: from[0], y: from[1] },
            &Point { x: tox, y: toy },
            is_visible,
        );
        proof {
            assert(cheb(tox - from[0], toy - from[1]) <= u32::MAX);
        }
        res
    }

    /// Line of sight considering terrain occlusion; currently the same
    /// trace as `los`.
    pub fn los_terrain(
        &self,
        terrains: &Vec<crate::Terrain>,
        obj_models: &Vec<crate::MapObjectModel>,
        from: &[i32; 2],
        to: &[i32; 2],
    ) -> (r: (bool, Vec<Point<i32>>))
        requires
            self.wf(),
            self.terrain_ids_ok(terrains@.len() as int),
            self.object_ids_ok(obj_models@.len() as int),
        ensures
            r.1@.len() >= 1,
            r.1@[0] == (Point { x: from[0], y: from[1] }),
            forall|j: int| 0 < j < r.1@.len() ==> crate::los::adjacent_step(
                r.1@[j - 1],
                #[trigger] r.1@[j],
            ),
            forall|j: int| 0 < j < r.1@.len() ==> vis_spec(
                *self,
                terrains@,
                obj_models@,
                to[0] as int,
                to[1] as int,
                #[trigger] r.1@[j],
            ),
            r.0 <==> r.1@.last() == (Point { x: to[0], y: to[1] }),
            !r.0 ==> exists|q: Point<i32>| crate::los::adjacent_step(r.1@.last(), q)
                && !vis_spec(*self, terrains@, obj_models@, to[0] as int, to[1] as int, q),
            r.0 ==> visible_chain(
                *self,
                terrains@,
                obj_models@,
                Point { x: from[0], y: from[1] },
                Point { x: to[0], y: to[1] },
                r.1@,
            ),
    {
        self.los(terrains, obj_models, from, to)
    }

    /// The background drawing of an in-bounds cell's terrain.
    pub fn bg(&self, pt: [usize; 2], terrains: &Vec<crate::Terrain>) -> (r: crate::BackgroundSpec)
        requires
            self.wf(),
            pt[0] < self.dim[0],
            pt[1] < self.dim[1],
            self.terrain_ids_ok(terrains@.len() as int),
        ensures
            r == terrains@[self.terrain@[flat_idx(
                self.dim[0] as int,
                pt[0] as int,
                pt[1] as int,
            )] as int].bg,
    {
        let n = self.terrain.len();
        proof {
            lemma_flat_idx_bounds(self.dim[0] as int, self.dim[1] as int, pt[0] as int, pt[1] as int);
        }
        let i = pt[0] + pt[1] * self.dim[0];
        match &terrains[self.terrain[i]].bg {
            Ok(col) => Ok(*col),
            Err(im) => Err(crate::ImgSpec { img: im.img.clone() }),
        }
    }

    /// The background drawing of an in-bounds cell's terrain, from signed
    /// coordinates.
    pub fn bg_i32(&self, pt: [i32; 2], terrains: &Vec<crate::Terrain>) -> (r: crate::BackgroundSpec)
        requires
            self.wf(),
            self.in_bounds_spec(pt[0] as int, pt[1] as int),
            self.terrain_ids_ok(terrains@.len() as int),
        ensures
            r == terrains@[self.terrain@[flat_idx(
                self.dim[0] as int,
                pt[0] as int,
                pt[1] as int,
            )] as int].bg,
    {
        self.bg(GameMap::usize_cast(pt), terrains)
    }
}


impl GameMap {
    /// The first actor on this map that is ready to act: non-negative
    /// energy, in list order.
    pub fn next_actor(&self) -> (r: Option<usize>)
        ensures
            r matches Some(i) ==> i < self.actors@.len() && self.actors@[i as int].ap >= 0
                && (forall|j: int| 0 <= j < i ==> self.actors@[j].ap < 0),
            r is None ==> forall|j: int| 0 <= j < self.actors@.len() ==> self.actors@[j].ap < 0,
    {
        let mut i: usize = 0;
        while i < self.actors.len()
            invariant
                0 <= i <= self.actors@.len(),
                forall|j: int| 0 <= j < i ==> self.actors@[j].ap < 0,
            decreases self.actors@.len() - i,
        {
            if self.actors[i].ap >= 0 {
                return Some(i);
            }
            i = i + 1;
        }
        None
    }

    /// One scheduling round: every actor on this map gains energy at its
    /// base rate. Returns whether this map has no actors at all.
    pub fn turn_postprocess(&mut self) -> (r: bool)
        ensures
            r == (old(self).actors@.len() == 0),
            final(self).actors@.len() == old(self).actors@.len(),
            forall|i: int| 0 <= i < old(self).actors@.len() ==> {
                let a = #[trigger] final(self).actors@[i];
                let b = old(self).actors@[i];
                &&& a.ap == crate::clamp_i16(b.ap + b.base_ap)
                &&& a.model == b.model
                &&& a.base_ap == b.base_ap
                &&& a.my_loc == b.my_loc
                &&& a.is_pc == b.is_pc
            },
            final(self).dim == old(self).dim,
            final(self).name == old(self).name,
            final(self).objects == old(self).objects,
            final(self).terrain == old(self).terrain,
    {
        let n = self.actors.len();
        let mut i: usize = 0;
        while i < n
            invariant
                0 <= i <= n,
                n == self.actors@.len(),
                n == old(self).actors@.len(),
                forall|j: int| i <= j < n ==> self.actors@[j] == old(self).actors@[j],
                forall|j: int| 0 <= j < i ==> {
                    let a = #[trigger] self.actors@[j];
                    let b = old(self).actors@[j];
                    &&& a.ap == crate::clamp_i16(b.ap + b.base_ap)
                    &&& a.model == b.model
                    &&& a.base_ap == b.base_ap
                    &&& a.my_loc == b.my_loc
                    &&& a.is_pc == b.is_pc
                },
                self.dim == old(self).dim,
                self.name == old(self).name,
                self.objects == old(self).objects,
                self.terrain == old(self).terrain,
            decreases n - i,
        {
            let a = &mut self.actors[i];
            a.turn_postprocess();
            i = i + 1;
        }
        n == 0
    }
}


/// A rectangle bound to terrain kinds for painting rooms: a floor kind, a
/// wall kind, and a packed code saying how each cardinal wall is drawn.
#[derive(Clone, Debug, PartialEq, Eq, Structural)]
pub struct MapRect {
    pub rect: Rect,
    pub _floor: usize,
    pub _wall: usize,
    pub _wallcode: u8,
}


/// A cell's flattened index determines its coordinates on the grid.
pub proof fn lemma_flat_idx_injective(w: int, x1: int, y1: int, x2: int, y2: int) by (nonlinear_arith)
    requires
        0 <= x1 < w,
        0 <= x2 < w,
        flat_idx(w, x1, y1) == flat_idx(w, x2, y2),
    ensures
        x1 == x2 && y1 == y2,
{
}

/// Whether (x, y) lies inside the rectangle.
pub open spec fn rect_contains(r: Rect, x: int, y: int) -> bool {
    &&& r._origin.x <= x < r._origin.x + r._dim.x
    &&& r._origin.y <= y < r._origin.y + r._dim.y
}

/// The terrain a painting writes at an in-rectangle cell (x, y): a side
/// column coded nonzero is wall, anything else floor; the top and bottom
/// rows are wall where coded, except that a top or bottom coded 2 spares
/// the center column; a side column coded 2 gets a floor gap at the center
/// row (where a door might go later). Meaningful while the rectangle's far
/// corner stays in coordinate range.
pub open spec fn rect_paint(mr: MapRect, x: int, y: int) -> usize {
    let ox = mr.rect._origin.x as int;
    let oy = mr.rect._origin.y as int;
    let w = mr.rect._dim.x as int;
    let h = mr.rect._dim.y as int;
    let n_code = (mr._wallcode as int) % 3;
    let e_code = ((mr._wallcode as int) / 3) % 3;
    let s_code = ((mr._wallcode as int) / 9) % 3;
    let w_code = ((mr._wallcode as int) / 27) % 3;
    let on_west = x == ox && w_code >= 1;
    let on_east = x != ox && x == ox + w - 1 && e_code >= 1;
    let pre = if on_west || on_east {
        mr._wall
    } else {
        mr._floor
    };
    let gap_column = (x == ox && w_code == 2) || (x != ox && x == ox + w - 1 && e_code == 2);
    let center_column = x == ox + w / 2;
    if y == oy {
        if n_code >= 1 && (!center_column || n_code == 1) {
            mr._wall
        } else {
            pre
        }
    } else if y == oy + h - 1 {
        if s_code >= 1 && (!center_column || s_code == 1) {
            mr._wall
        } else {
            pre
        }
    } else if gap_column && y == oy + h / 2 {
        mr._floor
    } else {
        pre
    }
}

/// The painted state of a map mid-way through drawing: every cell of the
/// rectangle in a column before x, or in column x on a row before y, holds
/// its painting, and every other cell is untouched.
pub open spec fn painted_up_to(
    mr: MapRect,
    old_t: Seq<usize>,
    new_t: Seq<usize>,
    w: int,
    h: int,
    x: int,
    y: int,
) -> bool {
    &&& new_t.len() == old_t.len()
    &&& forall|cx: int, cy: int| 0 <= cx < w && 0 <= cy < h ==> #[trigger] new_t[flat_idx(
        w,
        cx,
        cy,
    )] == (if rect_contains(mr.rect, cx, cy) && (cx < x || (cx == x && cy < y)) {
        rect_paint(mr, cx, cy)
    } else {
        old_t[flat_idx(w, cx, cy)]
    })
}

impl MapRect {
    pub fn new(_rect: Rect, floor: usize, wall: usize) -> (r: MapRect)
        ensures
            r.rect == _rect,
            r._floor == floor,
            r._wall == wall,
            r._wallcode == 0,
    {
        MapRect { rect: _rect, _floor: floor, _wall: wall, _wallcode: 0 }
    }

    /// Packs one code per cardinal wall: 0 none, 1 solid, 2 solid with a
    /// floor gap in the center (where a door might go later).
    pub fn set_wallcode(&mut self, n: u8, e: u8, s: u8, w: u8)
        requires
            n < 3,
            e < 3,
            s < 3,
            w < 3,
        ensures
            final(self)._wallcode == n + 3 * e + 9 * s + 27 * w,
            final(self).rect == old(self).rect,
            final(self)._floor == old(self)._floor,
            final(self)._wall == old(self)._wall,
    {
        self._wallcode = n + 3 * e + 9 * s + 27 * w;
    }

    /// Reads one cardinal wall's code back out of the packing; a diagonal
    /// direction has no wall and reads as 0.
    pub fn read_wallcode(&self, dir: Compass) -> (r: u8)
        ensures
            dir == Compass::N ==> r == self._wallcode % 3,
            dir == Compass::E ==> r == (self._wallcode / 3) % 3,
            dir == Compass::S ==> r == (self._wallcode / 9) % 3,
            dir == Compass::W ==> r == (self._wallcode / 27) % 3,
            !(dir == Compass::N || dir == Compass::E || dir == Compass::S || dir == Compass::W)
                ==> r == 0,
    {
        match dir {
            Compass::N => self._wallcode % 3,
            Compass::E => (self._wallcode / 3) % 3,
            Compass::S => (self._wallcode / 9) % 3,
            Compass::W => (self._wallcode / 27) % 3,
            _ => 0,
        }
    }

    /// Paints this rectangle onto a map: every cell inside it becomes
    /// exactly its `rect_paint` terrain (floor inside, coded walls along
    /// the sides, door gaps at the coded centers), and every cell outside
    /// it is untouched.
    #[verifier::loop_isolation(false)]
    pub fn draw(&self, m: &mut GameMap)
        requires
            old(m).wf(),
            0 <= self.rect._origin.x,
            0 <= self.rect._origin.y,
            self.rect._origin.x + self.rect._dim.x <= old(m).dim[0],
            self.rect._origin.y + self.rect._dim.y <= old(m).dim[1],
        ensures
            final(m).wf(),
            final(m).dim == old(m).dim,
            final(m).name == old(m).name,
            final(m).actors == old(m).actors,
            final(m).objects == old(m).objects,
            final(m).terrain@.len() == old(m).terrain@.len(),
            forall|cx: int, cy: int| 0 <= cx < old(m).dim[0] && 0 <= cy < old(m).dim[1]
                ==> #[trigger] final(m).terrain@[flat_idx(old(m).dim[0] as int, cx, cy)] == (
                if rect_contains(self.rect, cx, cy) {
                    rect_paint(*self, cx, cy)
                } else {
                    old(m).terrain@[flat_idx(old(m).dim[0] as int, cx, cy)]
                }),
    {
        let n_code = self.read_wallcode(Compass::N);
        let e_code = self.read_wallcode(Compass::E);
        let s_code = self.read_wallcode(Compass::S);
        let w_code = self.read_wallcode(Compass::W);
        let mid_pt = self.rect.center();
        let nw_pt = self.rect.anchor(Compass::NW);
        let se_pt = self.rect.anchor(Compass::SE);
        let mut x: i32 = nw_pt[0];
        while x < se_pt[0]
            invariant
                m.wf(),
                m.dim == old(m).dim,
                m.name == old(m).name,
                m.actors == old(m).actors,
                m.objects == old(m).objects,
                painted_up_to(
                    *self,
                    old(m).terrain@,
                    m.terrain@,
                    old(m).dim[0] as int,
                    old(m).dim[1] as int,
                    x as int,
                    self.rect._origin.y as int,
                ),
                nw_pt[0] <= x,
            decreases se_pt[0] - x,
        {
            let mut pre_paint = self._floor;
            let mid_x_test = mid_pt[0] == x;
            let mut mid_y_test = false;
            if nw_pt[0] == x {
                if 1 <= w_code {
                    pre_paint = self._wall;
                    if 2 == w_code {
                        mid_y_test = true;
                    }
                }
            } else if se_pt[0] - 1 == x {
                if 1 <= e_code {
                    pre_paint = self._wall;
                    if 2 == e_code {
                        mid_y_test = true;
                    }
                }
            }
            let mut y: i32 = nw_pt[1];
            while y < se_pt[1]
                invariant
                    m.wf(),
                    m.dim == old(m).dim,
                    m.name == old(m).name,
                    m.actors == old(m).actors,
                    m.objects == old(m).objects,
                    painted_up_to(
                        *self,
                        old(m).terrain@,
                        m.terrain@,
                        old(m).dim[0] as int,
                        old(m).dim[1] as int,
                        x as int,
                        y as int,
                    ),
                    nw_pt[0] <= x < se_pt[0],
                    nw_pt[1] <= y,
                    pre_paint == (if (x == nw_pt[0] && w_code >= 1) || (x != nw_pt[0] && x
                        == se_pt[0] - 1 && e_code >= 1) {
                        self._wall
                    } else {
                        self._floor
                    }),
                    mid_y_test == ((x == nw_pt[0] && w_code == 2) || (x != nw_pt[0] && x
                        == se_pt[0] - 1 && e_code == 2)),
                decreases se_pt[1] - y,
            {
                let mut paint = pre_paint;
                if nw_pt[1] == y {
                    if 1 <= n_code {
                        if !mid_x_test || 1 == n_code {
                            paint = self._wall;
                        }
                    }
                } else if se_pt[1] - 1 == y {
                    if 1 <= s_code {
                        if !mid_x_test || 1 == s_code {
                            paint = self._wall;
                        }
                    }
                } else if mid_y_test && mid_pt[1] == y {
                    paint = self._floor;
                }
                let ghost tprev = m.terrain@;
                m.set_terrain([x, y], paint);
                proof {
                    lemma_flat_idx_bounds(m.dim[0] as int, m.dim[1] as int, x as int, y as int);
                    assert(paint == rect_paint(*self, x as int, y as int));
                    let wg = old(m).dim[0] as int;
                    let hg = old(m).dim[1] as int;
                    assert forall|cx: int, cy: int| 0 <= cx < wg && 0 <= cy < hg
                        implies #[trigger] m.terrain@[flat_idx(wg, cx, cy)] == (if rect_contains(
                        self.rect,
                        cx,
                        cy,
                    ) && (cx < x || (cx == x && cy < y + 1)) {
                        rect_paint(*self, cx, cy)
                    } else {
                        old(m).terrain@[flat_idx(wg, cx, cy)]
                    }) by {
                        lemma_flat_idx_bounds(wg, hg, cx, cy);
                        if flat_idx(wg, cx, cy) == flat_idx(wg, x as int, y as int) {
                            lemma_flat_idx_injective(wg, cx, cy, x as int, y as int);
                        } else {
                            assert(m.terrain@[flat_idx(wg, cx, cy)] == tprev[flat_idx(wg, cx, cy)]);
                        }
                    }
                }
                y = y + 1;
            }
            x = x + 1;
        }
    }
}


/// How an actor draws: the player as a white `@`, anyone else by its
/// kind's tile.
pub open spec fn actor_fg_spec(a: crate::Actor, ams: Seq<crate::ActorModel>) -> crate::TileSpec {
    if a.is_pc {
        Ok(
            crate::CharSpec {
                img: '@',
                c: Some(crate::ColorSpec { r: 255, g: 255, b: 255 }),
            },
        )
    } else {
        ams[a.model as int].tile
    }
}

/// The visible drawings of the first n actors standing on (x, y), in
/// list order.
pub open spec fn actor_tiles_upto(
    actors: Seq<crate::Actor>,
    ams: Seq<crate::ActorModel>,
    x: int,
    y: int,
    n: int,
) -> Seq<crate::TileSpec>
    decreases n,
{
    if n <= 0 {
        Seq::empty()
    } else {
        let pre = actor_tiles_upto(actors, ams, x, y, n - 1);
        let a = actors[n - 1];
        if a.my_loc.pos[0] == x && a.my_loc.pos[1] == y && crate::tile_visible_spec(
            actor_fg_spec(a, ams),
        ) {
            pre.push(actor_fg_spec(a, ams))
        } else {
            pre
        }
    }
}

/// Everything drawn in a cell's foreground: the terrain tile if visible,
/// then the object's tile if visible, then every actor standing there
/// whose drawing is visible.
pub open spec fn tiles_spec(
    m: GameMap,
    ts: Seq<crate::Terrain>,
    oms: Seq<crate::MapObjectModel>,
    ams: Seq<crate::ActorModel>,
    x: int,
    y: int,
) -> Seq<crate::TileSpec> {
    let t_tile = ts[m.terrain@[flat_idx(m.dim[0] as int, x, y)] as int].tile;
    let base = if crate::tile_visible_spec(t_tile) {
        seq![t_tile]
    } else {
        Seq::<crate::TileSpec>::empty()
    };
    let with_obj = match m.objects@[flat_idx(m.dim[0] as int, x, y)] {
        Some(o) => {
            let ot = oms[o.model as int].tile;
            if crate::tile_visible_spec(ot) {
                base.push(ot)
            } else {
                base
            }
        },
        None => base,
    };
    with_obj + actor_tiles_upto(m.actors@, ams, x, y, m.actors@.len() as int)
}

impl GameMap {
    /// The ordered visible drawings of an in-bounds cell, or nothing when
    /// the cell draws nothing.
    #[verifier::loop_isolation(false)]
    pub fn tiles(
        &self,
        pt: [i32; 2],
        terrains: &Vec<crate::Terrain>,
        obj_models: &Vec<crate::MapObjectModel>,
        actor_models: &Vec<crate::ActorModel>,
    ) -> (r: Option<Vec<crate::TileSpec>>)
        requires
            self.wf(),
            self.in_bounds_spec(pt[0] as int, pt[1] as int),
            self.terrain_ids_ok(terrains@.len() as int),
            self.object_ids_ok(obj_models@.len() as int),
            self.actor_models_ok(actor_models@),
        ensures
            ({
                let sq = tiles_spec(
                    *self,
                    terrains@,
                    obj_models@,
                    actor_models@,
                    pt[0] as int,
                    pt[1] as int,
                );
                if sq.len() == 0 {
                    r is None
                } else {
                    r matches Some(v) && v@ == sq
                }
            }),
    {
        let mut ret: Vec<crate::TileSpec> = Vec::new();
        let i = self.cell_index(pt[0], pt[1]);
        let tile_fg = crate::clone_tile(&terrains[self.terrain[i]].tile);
        if crate::tile_is_visible(&tile_fg) {
            ret.push(tile_fg);
        }
        match self.get_map_object(pt) {
            Some(obj) => {
                let ot = crate::clone_tile(&obj_models[obj.model].tile);
                if crate::tile_is_visible(&ot) {
                    ret.push(ot);
                }
            },
            None => {},
        }
        let ghost prefix = ret@;
        let n = self.actors.len();
        let mut k: usize = 0;
        while k < n
            invariant
                0 <= k <= n,
                n == self.actors@.len(),
                ret@ == prefix + actor_tiles_upto(
                    self.actors@,
                    actor_models@,
                    pt[0] as int,
                    pt[1] as int,
                    k as int,
                ),
            decreases n - k,
        {
            let a = &self.actors[k];
            if a.my_loc.pos[0] == pt[0] && a.my_loc.pos[1] == pt[1] {
                let a_fg = if a.is_pc {
                    Ok(
                        crate::CharSpec {
                            img: '@',
                            c: Some(crate::ColorSpec { r: 255, g: 255, b: 255 }),
                        },
                    )
                } else {
                    crate::clone_tile(&actor_models[a.model].tile)
                };
                if crate::tile_is_visible(&a_fg) {
                    ret.push(a_fg);
                }
            }
            k = k + 1;
        }
        proof {
            assert(ret@ =~= tiles_spec(
                *self,
                terrains@,
                obj_models@,
                actor_models@,
                pt[0] as int,
                pt[1] as int,
            ));
        }
        if ret.len() > 0 {
            Some(ret)
        } else {
            None
        }
    }
}

} // verus!

//! Small numeric helpers: absolute values as unsigned integers, mixed-width
//! minimum/maximum, and overflow-aware addition of an unsigned amount into a
//! signed accumulator.

use vstd::prelude::*;

verus! {

/// Absolute value, widened into the unsigned type of the same width.
pub trait Norm {
    type Output;

    spec fn norm_spec(&self) -> Self::Output;

    fn norm(&self) -> (r: Self::Output)
        ensures
            r == self.norm_spec(),
    ;
}

impl Norm for i32 {
    type Output = u32;

    open spec fn norm_spec(&self) -> u32 {
        if *self >= 0 {
            *self as u32
        } else {
            (-(*self as int)) as u32
        }
    }

    fn norm(&self) -> (r: u32)
        ensures
            r == self.norm_spec(),
    {
        if 0 <= *self {
            *self as u32
        } else {
            (-(*self + 1)) as u32 + 1
        }
    }
}

impl Norm for i64 {
    type Output = u64;

    open spec fn norm_spec(&self) -> u64 {
        if *self >= 0 {
            *self as u64
        } else {
            (-(*self as int)) as u64
        }
    }

    fn norm(&self) -> (r: u64)
        ensures
            r == self.norm_spec(),
    {
        if 0 <= *self {
            *self as u64
        } else {
            (-(*self + 1)) as u64 + 1
        }
    }
}

/// Minimum and maximum across two integer types, each result carried in the
/// type that can hold it exactly.
pub trait HaveLT<RHS = Self> {
    type MinType;

    type MaxType;

    spec fn min_spec(&self, r: RHS) -> Self::MinType;

    spec fn max_spec(&self, r: RHS) -> Self::MaxType;

    #[allow(non_snake_case)]
    fn Min(&self, r: RHS) -> (m: Self::MinType)
        ensures
            m == self.min_spec(r),
    ;

    #[allow(non_snake_case)]
    fn Max(&self, r: RHS) -> (m: Self::MaxType)
        ensures
            m == self.max_spec(r),
    ;
}

impl HaveLT<u32> for u64 {
    type MinType = u32;

    type MaxType = u64;

    open spec fn min_spec(&self, r: u32) -> u32 {
        if *self < r as u64 {
            *self as u32
        } else {
            r
        }
    }

    open spec fn max_spec(&self, r: u32) -> u64 {
        if *self < r as u64 {
            r as u64
        } else {
            *self
        }
    }

    fn Min(&self, r: u32) -> (m: u32)
        ensures
            m == self.min_spec(r),
    {
        if *self > u32::MAX as u64 {
            return r;
        }
        let test = *self as u32;
        if r < test {
            r
        } else {
            test
        }
    }

    fn Max(&self, r: u32) -> (m: u64)
        ensures
            m == self.max_spec(r),
    {
        let test = r as u64;
        if *self < test {
            test
        } else {
            *self
        }
    }
}

/// Moving an unsigned amount into a signed accumulator, clamping the
/// accumulator at its maximum and leaving any excess behind.
pub trait Rearrange<RHS = Self>: Sized where RHS: Sized {
    /// What the pair becomes: the accumulator takes as much of the amount as
    /// fits, and the remainder (zero unless the accumulator saturated) stays.
    spec fn transfer_spec(s: Self, r: RHS) -> (Self, RHS);

    fn rearrange_sum(&mut self, rhs: &mut RHS)
        ensures
            (*final(self), *final(rhs)) == Self::transfer_spec(*old(self), *old(rhs)),
    ;

    #[allow(non_snake_case)]
    fn AddAssign(&mut self, rhs: RHS)
        ensures
            *final(self) == Self::transfer_spec(*old(self), rhs).0,
    ;
}

impl Rearrange<usize> for i32 {
    open spec fn transfer_spec(s: i32, r: usize) -> (i32, usize) {
        if s + r <= i32::MAX {
            ((s + r) as i32, 0usize)
        } else {
            (i32::MAX, (s + r - i32::MAX) as usize)
        }
    }

    fn rearrange_sum(&mut self, rhs: &mut usize)
        ensures
            (*final(self), *final(rhs)) == Self::transfer_spec(*old(self), *old(rhs)),
    {
        let room: i64 = i32::MAX as i64 - *self as i64;
        if *rhs as u64 <= room as u64 {
            *self = (*self as i64 + *rhs as i64) as i32;
            *rhs = 0;
        } else {
            *self = i32::MAX;
            *rhs = *rhs - room as usize;
        }
    }

    fn AddAssign(&mut self, rhs: usize)
        ensures
            *final(self) == Self::transfer_spec(*old(self), rhs).0,
    {
        let room: i64 = i32::MAX as i64 - *self as i64;
        if rhs as u64 <= room as u64 {
            *self = (*self as i64 + rhs as i64) as i32;
        } else {
            *self = i32::MAX;
        }
    }
}

} // verus!

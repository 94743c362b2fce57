use vstd::prelude::*;

verus! {

/// A share of a hundred.
#[derive(Debug, Clone, Copy, PartialEq, Eq, Structural)]
pub struct Percentage(pub i64);

impl Percentage {
    /// A percentage lies between 0 and 100, both included.
    pub open spec fn wf(self) -> bool {
        0 <= self.0 <= 100
    }
}

/// The value of `v` limited to the interval from `lo` to `hi`.
pub open spec fn spec_clamp(v: int, lo: int, hi: int) -> int {
    if v < lo {
        lo
    } else if v > hi {
        hi
    } else {
        v
    }
}

/// Limits `v` to the interval from `lo` to `hi`; below `lo` wins over above `hi`.
pub fn clamp(v: i64, lo: i64, hi: i64) -> (r: i64)
    ensures
        r == spec_clamp(v as int, lo as int, hi as int),
{
    if v < lo {
        lo
    } else if v > hi {
        hi
    } else {
        v
    }
}

/// The sign of `v`: -1, 0 or 1.
pub open spec fn spec_signum(v: int) -> int {
    if v < 0 {
        -1
    } else if v > 0 {
        1
    } else {
        0
    }
}

/// The sign of `v`: -1, 0 or 1.
pub fn signum(v: i64) -> (r: i64)
    ensures
        r == spec_signum(v as int),
{
    if v < 0 {
        -1
    } else if v > 0 {
        1
    } else {
        0
    }
}

/// The magnitude of `v`.
pub open spec fn spec_abs(v: int) -> int {
    if v < 0 {
        -v
    } else {
        v
    }
}

/// The magnitude of `v`.
pub fn abs(v: i64) -> (r: i64)
    requires
        v > i64::MIN,
    ensures
        r == spec_abs(v as int),
{
    if v < 0 {
        -v
    } else {
        v
    }
}

/// A number that depends on `seed` in no obvious way.
pub open spec fn spec_randomize(seed: int) -> int {
    (seed * 1103515245 + 12345) % 2147483648
}

/// Scrambles `seed` into a number below 2147483648.
pub fn randomize(seed: u32) -> (r: u32)
    ensures
        r == spec_randomize(seed as int),
        r < 2147483648,
{
    let wide: u64 = seed as u64;
    ((wide * 1103515245 + 12345) % 2147483648) as u32
}

} // verus!

use vstd::prelude::*;

verus! {

/// An exact rational result: the value `num / den`, with `den > 0`.
///
/// The statistics operations keep quotients exact instead of rounding them:
/// an average is the sum over the length, the median of an even-length
/// sequence is the sum of the two middle elements over two.  The fraction is
/// not reduced; contracts pin the numerator and denominator themselves.
#[derive(Clone, Copy, PartialEq, Eq, Structural, Debug)]
pub struct Ratio {
    pub num: i128,
    pub den: usize,
}

impl Ratio {
    /// A well-formed result has a positive denominator.
    pub open spec fn wf(self) -> bool {
        self.den > 0
    }

    /// The whole number `n`, as the exact quotient `n / 1`.
    pub fn whole(n: i64) -> (r: Ratio)
        ensures
            r.num == n as int,
            r.den == 1,
    {
        Ratio { num: n as i128, den: 1 }
    }
}

} // verus!

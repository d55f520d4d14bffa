use vstd::prelude::*;

verus! {

/// A normalized field value, the rational `num / den`.
/// It lies in [0, 1] when well formed.
#[derive(Clone, Copy, Debug, PartialEq, Eq, Structural)]
pub struct Level {
    pub num: u64,
    pub den: u64,
}

impl Level {
    pub open spec fn wf(self) -> bool {
        self.den > 0 && self.num <= self.den
    }

    /// The rational `self` is at most `other`.
    pub open spec fn le(self, other: Level) -> bool {
        self.num * other.den <= other.num * self.den
    }
}

/// Elementary maths on sampled field values.
pub trait ExtendedMathsF64: Sized {
    /// The exact value that `self` stands for.
    spec fn value(&self) -> int;

    /// Linear rescaling of `self` from `[min_max.0, min_max.1]` onto [0, 1]:
    /// `(self - min) / (max - min)`.
    fn norm(&self, min_max: (Self, Self)) -> (r: Level)
        requires
            min_max.0.value() <= self.value() <= min_max.1.value(),
            min_max.0.value() < min_max.1.value(),
        ensures
            r.wf(),
            r.num == self.value() - min_max.0.value(),
            r.den == min_max.1.value() - min_max.0.value(),
    ;
}

impl ExtendedMathsF64 for i64 {
    open spec fn value(&self) -> int {
        *self as int
    }

    fn norm(&self, min_max: (i64, i64)) -> (r: Level) {
        let num = (*self as i128 - min_max.0 as i128) as u64;
        let den = (min_max.1 as i128 - min_max.0 as i128) as u64;
        Level { num, den }
    }
}

} // verus!

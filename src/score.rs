//! Relevance scores as exact fractions.

use vstd::prelude::*;

verus! {

/// A relevance score `num / den`, a fraction in `[0, 1]` with `den > 0`.
#[derive(Clone, Copy, Debug, PartialEq, Eq, Structural)]
pub struct Score {
    pub num: usize,
    pub den: usize,
}

/// Score of an exact name match: 1.0.
pub open spec fn exact_score() -> Score {
    Score { num: 1, den: 1 }
}

/// Score of a case-insensitive prefix match: 0.9.
pub open spec fn prefix_score() -> Score {
    Score { num: 9, den: 10 }
}

/// Score of a case-insensitive substring match: 0.85.
pub open spec fn substring_score() -> Score {
    Score { num: 17, den: 20 }
}

impl Score {
    /// The fraction is well formed: a positive denominator.
    pub open spec fn valid(self) -> bool {
        self.den > 0
    }

    /// `self >= other` as fractions.
    pub open spec fn at_least(self, other: Score) -> bool {
        self.num * other.den >= other.num * self.den
    }

    /// The greater of two scores; the first on a tie.
    pub open spec fn max_with(self, other: Score) -> Score {
        if self.at_least(other) {
            self
        } else {
            other
        }
    }

    /// The score of an exact name match.
    pub fn exact() -> (r: Score)
        ensures
            r == exact_score(),
    {
        Score { num: 1, den: 1 }
    }

    /// The score of a prefix match.
    pub fn prefix() -> (r: Score)
        ensures
            r == prefix_score(),
    {
        Score { num: 9, den: 10 }
    }

    /// The score of a substring match.
    pub fn substring() -> (r: Score)
        ensures
            r == substring_score(),
    {
        Score { num: 17, den: 20 }
    }

    /// Whether `self >= other` as fractions.
    pub fn is_at_least(&self, other: &Score) -> (r: bool)
        ensures
            r == self.at_least(*other),
    {
        let a = self.num as u128;
        let b = other.den as u128;
        let c = other.num as u128;
        let d = self.den as u128;
        proof {
            lemma_product_fits(self.num, other.den);
            lemma_product_fits(other.num, self.den);
        }
        a * b >= c * d
    }

    /// The greater of two scores; `self` on a tie.
    pub fn max(self, other: Score) -> (r: Score)
        ensures
            r == self.max_with(other),
    {
        if self.is_at_least(&other) {
            self
        } else {
            other
        }
    }
}

proof fn lemma_product_fits(x: usize, y: usize)
    ensures
        (x as int) * (y as int) <= u128::MAX,
{
    assert((x as int) * (y as int) <= (usize::MAX as int) * (usize::MAX as int)) by (nonlinear_arith)
        requires
            x <= usize::MAX,
            y <= usize::MAX,
    ;
    assert((usize::MAX as int) * (usize::MAX as int) <= u128::MAX) by (nonlinear_arith)
        requires
            usize::MAX <= u64::MAX,
    ;
}

} // verus!

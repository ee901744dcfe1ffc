//! Points: the unit in which throws and totals are counted.

use crate::decimal::{decimal, decimal_digits};
use vstd::prelude::*;

verus! {

/// A number of points.
#[derive(Clone, Copy, Debug, Hash, PartialEq, Eq, PartialOrd, Ord)]
pub struct Points {
    value: u16,
}

impl View for Points {
    type V = nat;

    closed spec fn view(&self) -> nat {
        self.value as nat
    }
}

impl Default for Points {
    fn default() -> (points: Points)
        ensures
            points@ == 0,
    {
        Points { value: 0 }
    }
}

/// The sum of a sequence of point values.
pub open spec fn sum_of(values: Seq<Points>) -> nat
    decreases values.len(),
{
    if values.len() == 0 {
        0
    } else {
        sum_of(values.drop_last()) + values.last()@
    }
}

/// The sum of a prefix never exceeds the sum of the whole.
pub proof fn lemma_sum_of_prefix(values: Seq<Points>, n: int)
    requires
        0 <= n <= values.len(),
    ensures
        sum_of(values.take(n)) <= sum_of(values),
    decreases values.len(),
{
    if n == values.len() {
        assert(values.take(n) =~= values);
    } else {
        lemma_sum_of_prefix(values.drop_last(), n);
        assert(values.drop_last().take(n) =~= values.take(n));
    }
}

impl Points {
    /// The points that `value` stands for.
    pub closed spec fn of(value: u16) -> Points {
        Points { value }
    }

    /// There is one value for every number of points.
    pub proof fn lemma_of_view(self)
        ensures
            self@ <= u16::MAX,
            self == Points::of(self@ as u16),
    {
    }

    pub fn new(value: u16) -> (points: Points)
        ensures
            points@ == value,
            points == Points::of(value),
    {
        Points { value }
    }

    pub fn is_zero(&self) -> (zero: bool)
        ensures
            zero == (self@ == 0),
    {
        self.value == 0
    }

    pub fn zero() -> (points: Points)
        ensures
            points@ == 0,
    {
        Points { value: 0 }
    }

    pub fn value(&self) -> (value: u16)
        ensures
            value == self@,
    {
        self.value
    }

    /// The number of points in decimal notation.
    pub fn to_string(&self) -> (text: String)
        ensures
            text@ == decimal_digits(self@),
    {
        decimal(self.value as u64)
    }

    /// The points of `self` and `rhs` together.
    pub fn add(self, rhs: Points) -> (total: Points)
        requires
            self@ + rhs@ <= u16::MAX,
        ensures
            total@ == self@ + rhs@,
    {
        Points { value: self.value + rhs.value }
    }

    /// The points of all `values` together, counted up from zero.
    pub fn sum(values: &Vec<Points>) -> (total: Points)
        requires
            sum_of(values@) <= u16::MAX,
        ensures
            total@ == sum_of(values@),
    {
        let mut total = Points::zero();
        let mut i: usize = 0;
        while i < values.len()
            invariant
                i <= values.len(),
                total@ == sum_of(values@.take(i as int)),
                sum_of(values@) <= u16::MAX,
            decreases values.len() - i,
        {
            proof {
                lemma_sum_of_prefix(values@, i + 1);
                assert(values@.take(i + 1).drop_last() =~= values@.take(i as int));
            }
            total = total.add(values[i]);
            i = i + 1;
        }
        assert(values@.take(i as int) =~= values@);
        total
    }
}

} // verus!

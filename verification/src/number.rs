//! Positive numbers: player indices, round indices and player counts.

use crate::decimal::{decimal, decimal_digits};
use crate::error::{Error, ErrorKind};
use vstd::prelude::*;

verus! {

/// An integer that is at least one.
#[derive(Clone, Copy, Debug, Hash, PartialEq, Eq, PartialOrd, Ord)]
pub struct Number {
    value: usize,
}

impl View for Number {
    type V = nat;

    closed spec fn view(&self) -> nat {
        self.value as nat
    }
}

impl Number {
    #[verifier::type_invariant]
    spec fn is_positive(self) -> bool {
        self.value >= 1
    }

    /// The number `value`, refused when `value` is zero.
    pub fn new(value: usize) -> (result: Result<Number, Error>)
        ensures
            match result {
                Ok(n) => value != 0 && n@ == value,
                Err(e) => value == 0 && e.says(
                    ErrorKind::InvalidArgument,
                    "Number must be greater than 0"@,
                ),
            },
    {
        if value == 0 {
            return Err(Error::invalid_argument("Number must be greater than 0"));
        }
        Ok(Number { value })
    }

    /// The number one.
    pub fn one() -> (n: Number)
        ensures
            n@ == 1,
    {
        Number { value: 1 }
    }

    /// The number that follows `value`. This is how the library makes the
    /// numbers that it counts up itself: one more than a value cannot be
    /// zero.
    pub(crate) fn following(value: usize) -> (n: Number)
        requires
            value < usize::MAX,
        ensures
            n@ == value + 1,
    {
        Number { value: value + 1 }
    }

    /// The integer that the number stands for.
    pub fn value(&self) -> (value: usize)
        ensures
            value == self@,
            value >= 1,
    {
        proof {
            use_type_invariant(self);
        }
        self.value
    }

    /// The number in decimal notation.
    pub fn to_string(&self) -> (text: String)
        ensures
            text@ == decimal_digits(self@),
    {
        decimal(self.value as u64)
    }

    /// Moves to the next number; the largest number stays where it is.
    pub fn increment(&mut self)
        ensures
            final(self)@ == if old(self)@ < usize::MAX { old(self)@ + 1 } else { old(self)@ },
    {
        proof {
            use_type_invariant(&*self);
        }
        if self.value < usize::MAX {
            self.value = self.value + 1;
        }
    }
}

} // verus!

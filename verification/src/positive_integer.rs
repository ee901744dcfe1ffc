//! Positive integers, and counting up to one.

use crate::decimal::{decimal, decimal_digits, signed_decimal, signed_digits};
use crate::error::{Error, ErrorKind};
use vstd::prelude::*;

verus! {

/// An integer that is at least one.
#[derive(Clone, Copy, Debug, PartialEq)]
pub struct PositiveInteger {
    value: usize,
}

impl View for PositiveInteger {
    type V = nat;

    closed spec fn view(&self) -> nat {
        self.value as nat
    }
}

/// The positive integers up to a last one, handed out in rising order.
pub struct PositiveIntegersRange {
    end: PositiveInteger,
    begin: usize,
}

impl PositiveIntegersRange {
    #[verifier::type_invariant]
    spec fn begins_before_end(self) -> bool {
        self.begin <= self.end.value && self.end.value >= 1
    }

    /// The integer that was handed out last, zero where none was.
    pub closed spec fn reached(self) -> nat {
        self.begin as nat
    }

    /// The last integer of the range.
    pub closed spec fn last(self) -> nat {
        self.end@
    }

    /// The next integer of the range, if one is left.
    pub fn next(&mut self) -> (item: Option<PositiveInteger>)
        ensures
            final(self).last() == old(self).last(),
            match item {
                Some(integer) => {
                    &&& old(self).reached() < old(self).last()
                    &&& integer@ == old(self).reached() + 1
                    &&& final(self).reached() == old(self).reached() + 1
                },
                None => {
                    &&& old(self).reached() == old(self).last()
                    &&& final(self).reached() == old(self).reached()
                },
            },
    {
        proof {
            use_type_invariant(&*self);
        }
        if self.begin == self.end.value() {
            return None;
        }
        self.begin = self.begin + 1;
        Some(PositiveInteger { value: self.begin })
    }
}

/// The description of the error that refuses a negative integer.
pub open spec fn not_a_size(value: int) -> Seq<char> {
    "Can't convert i32 into usize. Given: "@ + signed_digits(value)
}

/// The description of the error that refuses an integer too large for
/// `i32`.
pub open spec fn not_an_i32(value: nat) -> Seq<char> {
    "Can't convert positive integer into i32. Given: "@ + decimal_digits(value)
}

impl PositiveInteger {
    #[verifier::type_invariant]
    spec fn is_positive(self) -> bool {
        self.value >= 1
    }

    /// The integer `value`, refused when `value` is zero.
    pub fn new(value: usize) -> (result: Result<PositiveInteger, Error>)
        ensures
            match result {
                Ok(integer) => value != 0 && integer@ == value,
                Err(e) => value == 0 && e.says(
                    ErrorKind::InvalidArgument,
                    "Positive integer must be greater than 0"@,
                ),
            },
    {
        if value == 0 {
            return Err(Error::invalid_argument("Positive integer must be greater than 0"));
        }
        Ok(PositiveInteger { value })
    }

    pub fn one() -> (integer: PositiveInteger)
        ensures
            integer@ == 1,
    {
        PositiveInteger { value: 1 }
    }

    /// The integers from one up to this one.
    pub fn range(&self) -> (range: PositiveIntegersRange)
        ensures
            range.reached() == 0,
            range.last() == self@,
    {
        proof {
            use_type_invariant(self);
        }
        PositiveIntegersRange { begin: 0, end: *self }
    }

    /// The integer as an `i32`, refused when it is too large for one.
    pub fn try_to_i32(&self) -> (result: Result<i32, Error>)
        ensures
            match result {
                Ok(value) => value == self@,
                Err(e) => self@ > i32::MAX && e.says(
                    ErrorKind::FailedPrecondition,
                    "Can't convert positive integer into i32"@,
                ),
            },
    {
        if self.value > i32::MAX as usize {
            return Err(Error::failed_precondition("Can't convert positive integer into i32"));
        }
        Ok(self.value as i32)
    }

    pub fn value(&self) -> (value: usize)
        ensures
            value == self@,
            value >= 1,
    {
        proof {
            use_type_invariant(self);
        }
        self.value
    }

    /// The integer in decimal notation.
    pub fn to_string(&self) -> (text: String)
        ensures
            text@ == decimal_digits(self@),
    {
        decimal(self.value as u64)
    }

    /// The positive integer that `value` holds, refused when `value` is
    /// negative or zero.
    pub fn try_from_i32(value: i32) -> (result: Result<PositiveInteger, Error>)
        ensures
            match result {
                Ok(integer) => value > 0 && integer@ == value,
                Err(e) => value <= 0 && if value < 0 {
                    e.says(ErrorKind::Unexpected, not_a_size(value as int))
                } else {
                    e.says(ErrorKind::InvalidArgument, "Positive integer must be greater than 0"@)
                },
            },
    {
        if value < 0 {
            let mut description = "Can't convert i32 into usize. Given: ".to_owned();
            description.append(signed_decimal(value as i64).as_str());
            return Err(Error::Unexpected(description));
        }
        PositiveInteger::new(value as usize)
    }

    /// The integer as an `i32`, refused with its value when it is too large
    /// for one.
    pub fn try_into_i32(self) -> (result: Result<i32, Error>)
        ensures
            match result {
                Ok(value) => value == self@,
                Err(e) => self@ > i32::MAX && e.says(ErrorKind::Unexpected, not_an_i32(self@)),
            },
    {
        if self.value > i32::MAX as usize {
            let mut description = "Can't convert positive integer into i32. Given: ".to_owned();
            description.append(decimal(self.value as u64).as_str());
            return Err(Error::Unexpected(description));
        }
        Ok(self.value as i32)
    }
}

} // verus!

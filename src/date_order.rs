//! Field orders and the options that fix how a date is read.
use std::ops::Range;
use vstd::prelude::*;

verus! {

/// The order of year, month and day in a date.
#[derive(Debug, Clone, Copy, PartialEq, Eq, Structural)]
pub enum DateOrder {
    YMD,
    DMY,
    MDY,
}

impl DateOrder {
    /// Positions of year, month and day among the three parts of a date.
    pub open spec fn indices(self) -> (nat, nat, nat) {
        match self {
            DateOrder::YMD => (0, 1, 2),
            DateOrder::DMY => (2, 1, 0),
            DateOrder::MDY => (2, 0, 1),
        }
    }

    /// Character ranges of year, month and day in a run of digits without
    /// separators: two digits each in a short run, four for the year in a
    /// run of eight or more.
    pub open spec fn offsets(self, length: nat) -> ((nat, nat), (nat, nat), (nat, nat)) {
        let short = length < 8;
        match self {
            DateOrder::YMD => if short {
                ((0, 2), (2, 4), (4, 6))
            } else {
                ((0, 4), (4, 6), (6, 8))
            },
            DateOrder::DMY => if short {
                ((4, 6), (2, 4), (0, 2))
            } else {
                ((4, 8), (2, 4), (0, 2))
            },
            DateOrder::MDY => if short {
                ((4, 6), (0, 2), (2, 4))
            } else {
                ((4, 8), (0, 2), (2, 4))
            },
        }
    }

    /// Render the order as indices for year, month and day.
    pub fn to_ymd_indices(&self) -> (r: (usize, usize, usize))
        ensures
            (r.0 as nat, r.1 as nat, r.2 as nat) == self.indices(),
    {
        match self {
            DateOrder::YMD => (0, 1, 2),
            DateOrder::DMY => (2, 1, 0),
            DateOrder::MDY => (2, 0, 1),
        }
    }

    /// Ranges of year, month and day in a run of `length` digits.
    pub fn fixed_offsets(&self, length: u8) -> (r: (Range<usize>, Range<usize>, Range<usize>))
        ensures
            ((r.0.start as nat, r.0.end as nat), (r.1.start as nat, r.1.end as nat), (
                r.2.start as nat,
                r.2.end as nat,
            )) == self.offsets(length as nat),
    {
        let short_date = length < 8;
        match self {
            DateOrder::YMD => {
                if short_date {
                    (0..2, 2..4, 4..6)
                } else {
                    (0..4, 4..6, 6..8)
                }
            },
            DateOrder::DMY => {
                if short_date {
                    (4..6, 2..4, 0..2)
                } else {
                    (4..8, 2..4, 0..2)
                }
            },
            DateOrder::MDY => {
                if short_date {
                    (4..6, 0..2, 2..4)
                } else {
                    (4..8, 0..2, 2..4)
                }
            },
        }
    }
}

/// Options for reading the date component of a string: the field order and
/// the separator, where `None` means a run of digits without separators.
#[derive(Debug, Clone, Copy, PartialEq, Eq, Structural)]
pub struct DateOptions(pub DateOrder, pub Option<char>);

impl DateOptions {
    pub fn order(&self) -> (r: DateOrder)
        ensures
            r == self.0,
    {
        self.0
    }

    pub fn splitter(&self) -> (r: Option<char>)
        ensures
            r == self.1,
    {
        self.1
    }

    pub fn ymd(splitter: char) -> (r: Self)
        ensures
            r == DateOptions(DateOrder::YMD, Some(splitter)),
    {
        DateOptions(DateOrder::YMD, Some(splitter))
    }

    pub fn ymd_fixed() -> (r: Self)
        ensures
            r == DateOptions(DateOrder::YMD, None),
    {
        DateOptions(DateOrder::YMD, None)
    }

    pub fn dmy(splitter: char) -> (r: Self)
        ensures
            r == DateOptions(DateOrder::DMY, Some(splitter)),
    {
        DateOptions(DateOrder::DMY, Some(splitter))
    }

    pub fn dmy_fixed() -> (r: Self)
        ensures
            r == DateOptions(DateOrder::DMY, None),
    {
        DateOptions(DateOrder::DMY, None)
    }

    pub fn mdy(splitter: char) -> (r: Self)
        ensures
            r == DateOptions(DateOrder::MDY, Some(splitter)),
    {
        DateOptions(DateOrder::MDY, Some(splitter))
    }

    pub fn mdy_fixed() -> (r: Self)
        ensures
            r == DateOptions(DateOrder::MDY, None),
    {
        DateOptions(DateOrder::MDY, None)
    }
}

/// Year, month and day, with hyphens between them.
pub open spec fn default_options() -> DateOptions {
    DateOptions(DateOrder::YMD, Some('-'))
}

impl Default for DateOptions {
    fn default() -> (r: Self)
        ensures
            r == default_options(),
    {
        DateOptions(DateOrder::YMD, Some('-'))
    }
}

} // verus!

//! Terms of a range text and the port numbers they stand for.

use vstd::prelude::*;

verus! {

/// One term of a range text: a single number, or the numbers from `start`
/// up to `end` in strides of `step`.
#[derive(Clone, Copy, Debug, PartialEq, Eq, Structural)]
pub enum RangeTerm {
    Single(u16),
    Range { start: u16, step: u16, end: u16 },
}

impl RangeTerm {
    /// Smallest number the term names.
    pub open spec fn lo(self) -> int {
        match self {
            RangeTerm::Single(v) => v as int,
            RangeTerm::Range { start, .. } => start as int,
        }
    }

    /// Largest number the term may name.
    pub open spec fn hi(self) -> int {
        match self {
            RangeTerm::Single(v) => v as int,
            RangeTerm::Range { end, .. } => end as int,
        }
    }

    /// A term of the port grammar: a single number, or an ascending range
    /// of consecutive numbers.
    pub open spec fn is_plain(self) -> bool {
        match self {
            RangeTerm::Single(_) => true,
            RangeTerm::Range { start, step, end } => step == 1 && start <= end,
        }
    }

    /// A term as the compact notation writes it: a range has at least two
    /// members, so a lone number is always a `Single`.
    pub open spec fn is_run(self) -> bool {
        match self {
            RangeTerm::Single(_) => true,
            RangeTerm::Range { start, step, end } => step == 1 && start < end,
        }
    }

    /// Whether `v` lies between the ends of the term.
    pub open spec fn covers(self, v: int) -> bool {
        self.lo() <= v <= self.hi()
    }

    /// The numbers of a plain term, ascending.
    pub open spec fn values(self) -> Seq<u16> {
        Seq::new((self.hi() - self.lo() + 1) as nat, |i: int| (self.lo() + i) as u16)
    }
}

/// The numbers of all terms, in the order of the terms.
pub open spec fn expand(terms: Seq<RangeTerm>) -> Seq<u16>
    decreases terms.len(),
{
    if terms.len() == 0 {
        Seq::empty()
    } else {
        expand(terms.drop_last()) + terms.last().values()
    }
}

} // verus!

//! Pairs of item indices, and the recorded answer for a pair.

use vstd::prelude::*;
use std::cmp::Ordering;

verus! {

/// Two item indices, in the order in which the question about them is put.
#[derive(Clone, Copy, Debug, PartialEq, Eq, Hash, Structural)]
pub struct Pair(pub usize, pub usize);

impl Pair {
    /// The first index.
    pub fn first(&self) -> (r: usize)
        ensures
            r == self.0,
    {
        self.0
    }

    /// The second index.
    pub fn second(&self) -> (r: usize)
        ensures
            r == self.1,
    {
        self.1
    }

    /// The same two indices, the other way round.
    pub fn reverse(&self) -> (r: Pair)
        ensures
            r == Pair(self.1, self.0),
    {
        Pair(self.1, self.0)
    }
}

/// How the first item of a pair compares to the second: `Greater` means the
/// first is ranked above the second.
#[derive(Clone, Copy, Debug, PartialEq, Eq, Structural)]
pub enum Outcome {
    Less,
    Equal,
    Greater,
}

impl Outcome {
    /// The same answer as a standard `Ordering`.
    pub open spec fn as_ordering(self) -> Ordering {
        match self {
            Outcome::Less => Ordering::Less,
            Outcome::Equal => Ordering::Equal,
            Outcome::Greater => Ordering::Greater,
        }
    }

    /// The answer for the pair the other way round.
    pub open spec fn flipped(self) -> Outcome {
        match self {
            Outcome::Less => Outcome::Greater,
            Outcome::Equal => Outcome::Equal,
            Outcome::Greater => Outcome::Less,
        }
    }

    /// Converts a standard `Ordering`.
    pub fn from_ordering(o: Ordering) -> (r: Outcome)
        ensures
            r.as_ordering() == o,
    {
        match o {
            Ordering::Less => Outcome::Less,
            Ordering::Equal => Outcome::Equal,
            Ordering::Greater => Outcome::Greater,
        }
    }

    /// Converts to a standard `Ordering`.
    pub fn to_ordering(self) -> (r: Ordering)
        ensures
            r == self.as_ordering(),
    {
        match self {
            Outcome::Less => Ordering::Less,
            Outcome::Equal => Ordering::Equal,
            Outcome::Greater => Ordering::Greater,
        }
    }

    /// The answer for the pair the other way round (as `Ordering::reverse`).
    pub fn reverse(self) -> (r: Outcome)
        ensures
            r == self.flipped(),
    {
        match self {
            Outcome::Less => Outcome::Greater,
            Outcome::Equal => Outcome::Equal,
            Outcome::Greater => Outcome::Less,
        }
    }
}

} // verus!

//! Process identifiers handed out by an incrementing counter.

use vstd::prelude::*;
use crate::num::{lemma_decimal_scan, decimal, parse_usize, parse_usize_spec, usize_to_string, IntErrorKind};

verus! {

/// The value after `n` in the counter's wrapping order.
pub open spec fn succ(n: usize) -> usize {
    if n == usize::MAX {
        0
    } else {
        (n + 1) as usize
    }
}

/// Reading back the decimal text of a `usize` gives the same number.
pub proof fn lemma_usize_decimal_round_trip(n: usize)
    ensures
        parse_usize_spec(decimal(n as nat)) == Ok::<int, IntErrorKind>(n as int),
{
    lemma_decimal_scan(n as nat, false, 0, usize::MAX as int);
}

/// The counter from which process ids are taken.
#[derive(Clone, Copy, Debug)]
pub struct Id {
    pub counter: usize,
}

impl Id {
    /// A counter whose next id is `start`.
    pub fn new(start: usize) -> (r: Id)
        ensures
            r.counter == start,
    {
        Id { counter: start }
    }

    /// Hands out the current value and advances the counter (wrapping at the top).
    pub fn next(&mut self) -> (r: usize)
        ensures
            r == old(self).counter,
            final(self).counter == succ(old(self).counter),
    {
        let v = self.counter;
        self.counter = if v == usize::MAX {
            0
        } else {
            v + 1
        };
        v
    }

    /// Reads a counter from its decimal text (`Id::from_str`).
    pub fn parse(s: &str) -> (r: Result<Id, &'static str>)
        ensures
            match parse_usize_spec(s@) {
                Ok(v) => r matches Ok(id) && id.counter == v,
                Err(_) => r is Err,
            },
    {
        match parse_usize(s) {
            Ok(v) => Ok(Id::new(v)),
            Err(_) => Err("Failed to parse string into usize"),
        }
    }

    /// Reads a counter from its decimal text, starting at 0 when the text is
    /// not a `usize` (`Id::from(&str)`).
    pub fn from_text(s: &str) -> (r: Id)
        ensures
            r.counter == match parse_usize_spec(s@) {
                Ok(v) => v,
                Err(_) => 0,
            },
    {
        match Id::parse(s) {
            Ok(id) => id,
            Err(_) => Id::new(0),
        }
    }

    /// The counter's decimal text (`Display`).
    pub fn to_string(&self) -> (s: String)
        ensures
            s@ == decimal(self.counter as nat),
    {
        usize_to_string(self.counter)
    }
}

/// A plain incrementing counter.
pub struct AutoIncrement {
    pub counter: usize,
}

impl AutoIncrement {
    /// A counter whose next value is `start`.
    pub fn new(start: usize) -> (r: AutoIncrement)
        ensures
            r.counter == start,
    {
        AutoIncrement { counter: start }
    }

    /// Hands out the current value and advances the counter (wrapping at the top).
    pub fn next(&mut self) -> (r: usize)
        ensures
            r == old(self).counter,
            final(self).counter == succ(old(self).counter),
    {
        let v = self.counter;
        self.counter = if v == usize::MAX {
            0
        } else {
            v + 1
        };
        v
    }
}

} // verus!

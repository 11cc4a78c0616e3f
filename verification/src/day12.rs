//! Garden-region puzzle: the scanner splits each line of the grid into spans
//! of one repeated character. Only the span arithmetic lives here; it is what
//! the region merging is built on.

use vstd::prelude::*;

verus! {

pub open spec fn min16(x: u16, y: u16) -> u16 {
    if x <= y {
        x
    } else {
        y
    }
}

pub open spec fn max16(x: u16, y: u16) -> u16 {
    if x >= y {
        x
    } else {
        y
    }
}

/// A run of one character within a line: the character, the column range
/// `start..end`, and the region the span was assigned to.
#[derive(Debug, Clone, Copy)]
pub struct CharSpan {
    pub ch: u8,
    pub start: u16,
    pub end: u16,
    pub region: u16,
}

impl CharSpan {
    /// Width of the span.
    pub fn len(&self) -> (r: u16)
        requires
            self.start <= self.end,
        ensures
            r == self.end - self.start,
    {
        self.end - self.start
    }

    /// Width of the overlap of two spans, which must overlap.
    pub fn overlap(&self, other: &Self) -> (r: u16)
        requires
            max16(self.start, other.start) < min16(self.end, other.end),
        ensures
            r == min16(self.end, other.end) - max16(self.start, other.start),
    {
        let start = if self.start >= other.start {
            self.start
        } else {
            other.start
        };
        let end = if self.end <= other.end {
            self.end
        } else {
            other.end
        };
        end - start
    }
}

} // verus!

//! The staleness lattice: a timestamp with a bottom element.

use vstd::prelude::*;

verus! {

/// When an asset last started producing the value it produces now.
#[derive(Debug, Clone, Copy, PartialEq, Eq, Structural)]
pub enum Modified {
    /// Never produced: whatever depends on it must always run.
    Never,
    /// Produced at this instant (nanoseconds since the Unix epoch).
    At(u64),
}

impl Modified {
    /// The total order of the lattice: `Never` below every instant.
    pub open spec fn le(self, other: Modified) -> bool {
        match (self, other) {
            (Modified::Never, _) => true,
            (Modified::At(_), Modified::Never) => false,
            (Modified::At(a), Modified::At(b)) => a <= b,
        }
    }

    pub open spec fn lt(self, other: Modified) -> bool {
        self.le(other) && self != other
    }

    /// The later of two values, with `Never` as identity.
    pub open spec fn later(self, other: Modified) -> Modified {
        if self.le(other) {
            other
        } else {
            self
        }
    }

    /// The later of `self` and `other`.
    pub fn max(self, other: Modified) -> (r: Modified)
        ensures
            r == self.later(other),
    {
        match (self, other) {
            (Modified::Never, _) => other,
            (Modified::At(_), Modified::Never) => self,
            (Modified::At(a), Modified::At(b)) => if a <= b {
                other
            } else {
                self
            },
        }
    }

    /// Whether `self` is at least as late as `other`.
    pub fn at_least(self, other: Modified) -> (r: bool)
        ensures
            r == other.le(self),
    {
        match (other, self) {
            (Modified::Never, _) => true,
            (Modified::At(_), Modified::Never) => false,
            (Modified::At(a), Modified::At(b)) => a <= b,
        }
    }

    /// The stamp of a path whose modification time was looked up: `Never` when
    /// the path does not exist.
    pub fn from_mtime(mtime: Option<u64>) -> (r: Modified)
        ensures
            r == (match mtime {
                Some(t) => Modified::At(t),
                None => Modified::Never,
            }),
    {
        match mtime {
            Some(t) => Modified::At(t),
            None => Modified::Never,
        }
    }
}

/// `le` is a total order.
pub proof fn lemma_le_total_order(a: Modified, b: Modified, c: Modified)
    ensures
        a.le(a),
        a.le(b) || b.le(a),
        a.le(b) && b.le(a) ==> a == b,
        a.le(b) && b.le(c) ==> a.le(c),
{
}

/// `later` is the least upper bound of its arguments, with `Never` as identity.
pub proof fn lemma_later_is_lub(a: Modified, b: Modified, c: Modified)
    ensures
        a.le(a.later(b)),
        b.le(a.later(b)),
        a.le(c) && b.le(c) ==> a.later(b).le(c),
        a.later(b) == b.later(a),
        a.later(b).later(c) == a.later(b.later(c)),
        a.later(Modified::Never) == a,
        Modified::Never.later(a) == a,
{
}

} // verus!

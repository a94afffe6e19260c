use vstd::prelude::*;

verus! {

/// A height on one chain: a revision number and a block number within it.
/// Heights are ordered by revision first, then by block.
#[derive(Clone, Copy, Debug, PartialEq, Eq, Structural)]
pub struct Height {
    pub revision_number: u64,
    pub revision_height: u64,
}

/// Strict order on heights: revision first, block number second.
pub open spec fn height_lt(a: Height, b: Height) -> bool {
    a.revision_number < b.revision_number || (a.revision_number == b.revision_number
        && a.revision_height < b.revision_height)
}

/// Non-strict order on heights.
pub open spec fn height_le(a: Height, b: Height) -> bool {
    a == b || height_lt(a, b)
}

/// The order on heights is transitive.
pub proof fn lemma_height_le_trans(a: Height, b: Height, c: Height)
    requires
        height_le(a, b),
        height_le(b, c),
    ensures
        height_le(a, c),
{
}

impl Height {
    pub fn new(revision_number: u64, revision_height: u64) -> (r: Height)
        ensures
            r.revision_number == revision_number,
            r.revision_height == revision_height,
    {
        Height { revision_number, revision_height }
    }

    /// Whether `self` is strictly below `other`.
    pub fn lt(&self, other: &Height) -> (r: bool)
        ensures
            r == height_lt(*self, *other),
    {
        self.revision_number < other.revision_number || (self.revision_number
            == other.revision_number && self.revision_height < other.revision_height)
    }

    /// Whether `self` is at or below `other`.
    pub fn le(&self, other: &Height) -> (r: bool)
        ensures
            r == height_le(*self, *other),
    {
        *self == *other || self.lt(other)
    }

    /// Whether both heights lie in the same revision.
    pub fn same_revision(&self, other: &Height) -> (r: bool)
        ensures
            r == (self.revision_number == other.revision_number),
    {
        self.revision_number == other.revision_number
    }
}

} // verus!

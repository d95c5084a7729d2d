//! Heuristic ancestry checks for [`Nid`].
//!
//! These predicates compare depth and sequence numbers and do not verify
//! actual structural parentage: two unrelated ids created in the right order
//! can satisfy them. Use only as a fast filter.

use vstd::prelude::*;

use crate::id::nid::Nid;

verus! {

impl Nid {
    /// `self` could be a direct parent of `other`: `other` is exactly one
    /// level deeper and has a larger sequence number. An id at the deepest
    /// depth is the parent of nothing.
    pub open spec fn spec_is_parent_of(self, other: Nid) -> bool {
        self.spec_depth() + 1 == other.spec_depth() && self.spec_seq() < other.spec_seq()
    }

    /// `self` could be an ancestor (any depth) of `other`: both depth and
    /// sequence number are smaller.
    pub open spec fn spec_is_ancestor_of(self, other: Nid) -> bool {
        self.spec_depth() < other.spec_depth() && self.spec_seq() < other.spec_seq()
    }

    /// Returns `true` if `self` could be a direct parent of `other`.
    pub fn is_parent_of(self, other: Nid) -> (r: bool)
        ensures
            r == self.spec_is_parent_of(other),
    {
        (self.depth() as u32) + 1 == other.depth() as u32 && self.seq() < other.seq()
    }

    /// Returns `true` if `self` could be an ancestor (any depth) of `other`.
    pub fn is_ancestor_of(self, other: Nid) -> (r: bool)
        ensures
            r == self.spec_is_ancestor_of(other),
    {
        self.depth() < other.depth() && self.seq() < other.seq()
    }
}

/// An ancestor is shallower and was created earlier: an id created no
/// earlier than another (a sequence number not smaller) is never its
/// ancestor or parent, whatever the depths, nor is an id at least as deep.
/// Any id both shallower and earlier counts as an ancestor, and as the
/// parent when exactly one level shallower.
pub proof fn lemma_ancestry_needs_earlier_and_shallower(a: Nid, b: Nid)
    ensures
        a.spec_seq() >= b.spec_seq() ==> !a.spec_is_ancestor_of(b) && !a.spec_is_parent_of(b),
        a.spec_depth() >= b.spec_depth() ==> !a.spec_is_ancestor_of(b) && !a.spec_is_parent_of(b),
        a.spec_depth() < b.spec_depth() && a.spec_seq() < b.spec_seq() ==> a.spec_is_ancestor_of(b),
        a.spec_depth() + 1 == b.spec_depth() && a.spec_seq() < b.spec_seq() ==> a.spec_is_parent_of(b),
        a.spec_depth() + 1 != b.spec_depth() ==> !a.spec_is_parent_of(b),
{
}

/// A child — one level deeper, created later — is recognised as such: its
/// parent is both its parent and its ancestor.
pub proof fn lemma_child_is_recognised(parent: Nid, child: Nid)
    requires
        child.spec_depth() == parent.spec_depth() + 1,
        parent.spec_seq() < child.spec_seq(),
    ensures
        parent.spec_is_parent_of(child),
        parent.spec_is_ancestor_of(child),
{
}

/// A parent is an ancestor.
pub proof fn lemma_parent_is_ancestor(a: Nid, b: Nid)
    requires
        a.spec_is_parent_of(b),
    ensures
        a.spec_is_ancestor_of(b),
{
}

/// Ancestry is irreflexive and transitive; no id is its own parent, and an
/// id at the deepest depth is the parent of nothing.
pub proof fn lemma_ancestry_order(a: Nid, b: Nid, c: Nid)
    ensures
        !a.spec_is_ancestor_of(a),
        !a.spec_is_parent_of(a),
        a.spec_depth() == 0xffff ==> !a.spec_is_parent_of(b),
        a.spec_is_ancestor_of(b) && b.spec_is_ancestor_of(c) ==> a.spec_is_ancestor_of(c),
{
}

/// Two ids at the same depth — siblings — are neither parent nor ancestor
/// of one another.
pub proof fn lemma_siblings_unrelated(a: Nid, b: Nid)
    requires
        a.spec_depth() == b.spec_depth(),
    ensures
        !a.spec_is_parent_of(b),
        !a.spec_is_ancestor_of(b),
{
}

} // verus!

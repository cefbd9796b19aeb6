//! The in-memory model of a directory tree, and the depth measure used to
//! justify recursion over it.

use vstd::prelude::*;

verus! {

/// One directory entry: its display name (the final path segment), whether it
/// is a directory, and — for directories — its immediate children.
pub struct Entry {
    pub name: String,
    pub is_dir: bool,
    pub children: Vec<Entry>,
}

/// Height of a forest of entries: zero for an empty level, otherwise one more
/// than the deepest child forest. Used as a termination measure by everything
/// that recurses into `children`.
pub open spec fn depth(s: Seq<Entry>) -> nat
    decreases s,
{
    if s.len() == 0 {
        0
    } else {
        let d0 = 1 + depth(s[0].children@);
        let dr = depth(s.drop_first());
        if d0 > dr {
            d0
        } else {
            dr
        }
    }
}

/// Every entry of a level sits strictly below the level itself.
pub proof fn lemma_depth_elem(s: Seq<Entry>, i: int)
    requires
        0 <= i < s.len(),
    ensures
        depth(s[i].children@) < depth(s),
    decreases s.len(),
{
    if i == 0 {
    } else {
        lemma_depth_elem(s.drop_first(), i - 1);
        assert(s.drop_first()[i - 1] == s[i]);
    }
}

/// A forest whose entries all occur in another forest is at most as deep.
pub proof fn lemma_depth_subset(s1: Seq<Entry>, s2: Seq<Entry>)
    requires
        forall|i: int| 0 <= i < s2.len() ==> s1.contains(#[trigger] s2[i]),
    ensures
        depth(s2) <= depth(s1),
    decreases s2.len(),
{
    if s2.len() > 0 {
        let j = choose|j: int| 0 <= j < s1.len() && s1[j] == s2[0];
        lemma_depth_elem(s1, j);
        assert(forall|i: int|
            0 <= i < s2.drop_first().len() ==> s1.contains(#[trigger] s2.drop_first()[i])) by {
            assert(forall|i: int|
                0 <= i < s2.drop_first().len() ==> s2.drop_first()[i] == s2[i + 1]);
        }
        lemma_depth_subset(s1, s2.drop_first());
    }
}

} // verus!

//! Work ordering: the scheduler sorts the candidate files by size before
//! dispatch, so that small files finish early. The order is a scheduling
//! policy, not a correctness requirement: any permutation yields the same
//! final grouping.

use vstd::prelude::*;

verus! {

broadcast use vstd::seq_lib::group_to_multiset_ensures;

/// A candidate file as the scheduler sees it: its path and its size in
/// bytes, read once during enumeration.
pub struct SizedPath {
    pub size: u64,
    pub path: String,
}

/// Sorts the candidate list by size, smallest first, keeping exactly the
/// same collection of entries.
pub fn sort_by_file_size(files: &mut Vec<SizedPath>)
    ensures
        final(files)@.len() == old(files)@.len(),
        forall|a: int, b: int|
            0 <= a <= b < final(files)@.len() ==> final(files)@[a].size <= final(files)@[b].size,
        final(files)@.to_multiset() == old(files)@.to_multiset(),
{
    let mut i: usize = 1;
    while i < files.len()
        invariant
            i >= 1,
            files@.len() == old(files)@.len(),
            files@.to_multiset() == old(files)@.to_multiset(),
            forall|a: int, b: int| 0 <= a <= b < i && b < files@.len() ==> files@[a].size
                <= files@[b].size,
        decreases files@.len() - i,
    {
        let ghost before = files@;
        let x = files.remove(i);
        let mut j: usize = 0;
        while j < i && files[j].size <= x.size
            invariant
                j <= i,
                i < before.len(),
                files@ == before.remove(i as int),
                forall|t: int| 0 <= t < j ==> files@[t].size <= x.size,
            decreases i - j,
        {
            j = j + 1;
        }
        proof {
            assert(forall|t: int| j <= t < i ==> files@[t].size > x.size) by {
                if j < i {
                    assert(files@[j as int].size > x.size);
                    assert(forall|t: int| j <= t < i ==> files@[j as int].size <= files@[t].size);
                }
            }
        }
        files.insert(j, x);
        proof {
            assert(files@ =~= before.remove(i as int).insert(j as int, x));
            assert(files@.to_multiset() == before.to_multiset());
            assert(forall|a: int, b: int|
                0 <= a <= b < i + 1 && b < files@.len() ==> files@[a].size <= files@[b].size);
        }
        i = i + 1;
    }
}

} // verus!

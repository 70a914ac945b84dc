//! The reporting boundary: order the final tally for rendering.
//!
//! The report is the final mapping's entries sorted by count, largest
//! first. Among entries with equal counts the order is arbitrary, so the
//! contract promises an ordering and the same entries, nothing more.

use vstd::prelude::*;

use crate::usage::Entry;
use crate::usage::UsageMap;

verus! {

/// Whether a sequence of entries is ordered by count, largest first.
pub open spec fn sorted_desc(s: Seq<Entry>) -> bool {
    forall|i: int, j: int| 0 <= i <= j < s.len() ==> s[i].count >= s[j].count
}

/// The entries of the final mapping, from most- to least-used. Exactly
/// the mapping's entries appear; equal counts come in no fixed order.
pub fn into_sorted_entries(m: UsageMap) -> (r: Vec<Entry>)
    ensures
        sorted_desc(r@),
        r@.to_multiset() == m.entries@.to_multiset(),
{
    let ghost orig = m.entries@;
    let mut src = m.entries;
    let mut out: Vec<Entry> = Vec::new();
    proof {
        broadcast use vstd::seq_lib::group_to_multiset_ensures;

        assert(out@.to_multiset().add(src@.to_multiset()) =~= orig.to_multiset());
    }
    while src.len() > 0
        invariant
            out@.to_multiset().add(src@.to_multiset()) == orig.to_multiset(),
            sorted_desc(out@),
            forall|i: int, j: int|
                0 <= i < out@.len() && 0 <= j < src@.len() ==> out@[i].count >= src@[j].count,
        decreases src@.len(),
    {
        let mut best: usize = 0;
        let mut j: usize = 1;
        while j < src.len()
            invariant
                src@.len() > 0,
                best < j,
                j <= src@.len(),
                forall|t: int| 0 <= t < j ==> src@[t].count <= src@[best as int].count,
            decreases src@.len() - j,
        {
            if src[j].count > src[best].count {
                best = j;
            }
            j += 1;
        }
        let ghost src_before = src@;
        let ghost out_before = out@;
        let e = src.remove(best);
        out.push(e);
        proof {
            broadcast use vstd::seq_lib::group_to_multiset_ensures;

            assert(src@.to_multiset() =~= src_before.to_multiset().remove(e));
            assert(out@.to_multiset() =~= out_before.to_multiset().insert(e));
            assert(src_before.to_multiset().count(e) > 0) by {
                assert(src_before.contains(e));
            }
            assert(out@.to_multiset().add(src@.to_multiset()) =~= orig.to_multiset());
            assert(forall|t: int|
                0 <= t < src@.len() ==> src@[t].count <= e.count && (src@[t] == src_before[t]
                    || src@[t] == src_before[t + 1]));
        }
    }
    proof {
        broadcast use vstd::seq_lib::group_to_multiset_ensures;

        assert(src@.to_multiset().len() == 0);
        assert(out@.to_multiset() =~= orig.to_multiset());
    }
    out
}

} // verus!

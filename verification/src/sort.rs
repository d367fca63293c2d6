//! Sorting of the lookup entries of the spatial grid.
//!
//! An entry pairs a particle index with the key of the cell the particle is
//! in. Entries are ordered by key, and entries of one key by particle index,
//! so that all particles of a cell end up side by side, lowest index first.

use vstd::prelude::*;
use vstd::multiset::Multiset;
use vstd::seq_lib::*;

verus! {

/// `a` comes no later than `b`: its key is smaller, or the keys are equal and
/// its particle index is not larger.
pub open spec fn entry_le(a: (usize, usize), b: (usize, usize)) -> bool {
    a.1 < b.1 || (a.1 == b.1 && a.0 <= b.0)
}

/// Every entry of `s` comes no later than all entries behind it.
pub open spec fn sorted_entries(s: Seq<(usize, usize)>) -> bool {
    forall|i: int, j: int| 0 <= i < j < s.len() ==> #[trigger] entry_le(s[i], s[j])
}

fn entry_comes_first(a: (usize, usize), b: (usize, usize)) -> (first: bool)
    ensures
        first == entry_le(a, b),
{
    a.1 < b.1 || (a.1 == b.1 && a.0 <= b.0)
}

/// Merges two sorted runs into one.
fn merge(left: &Vec<(usize, usize)>, right: &Vec<(usize, usize)>) -> (out: Vec<(usize, usize)>)
    requires
        sorted_entries(left@),
        sorted_entries(right@),
        left.len() + right.len() <= usize::MAX,
    ensures
        sorted_entries(out@),
        out@.to_multiset() == left@.to_multiset().add(right@.to_multiset()),
        out.len() == left.len() + right.len(),
{
    let mut out: Vec<(usize, usize)> = Vec::new();
    let mut i: usize = 0;
    let mut j: usize = 0;
    proof {
        broadcast use vstd::multiset::group_multiset_axioms;

        let nothing = Seq::<(usize, usize)>::empty();
        assert(out@ =~= nothing);
        assert(left@.take(0) =~= nothing);
        assert(right@.take(0) =~= nothing);
        to_multiset_len(nothing);
        assert(nothing.to_multiset() =~= Multiset::empty());
        assert(out@.to_multiset() =~= left@.take(0).to_multiset().add(
            right@.take(0).to_multiset(),
        ));
    }
    while i < left.len() || j < right.len()
        invariant
            i <= left.len(),
            j <= right.len(),
            left.len() + right.len() <= usize::MAX,
            out.len() == i + j,
            sorted_entries(left@),
            sorted_entries(right@),
            sorted_entries(out@),
            out@.to_multiset() == left@.take(i as int).to_multiset().add(
                right@.take(j as int).to_multiset(),
            ),
            forall|k: int|
                0 <= k < out.len() && i < left.len() ==> entry_le(#[trigger] out[k], left[i as int]),
            forall|k: int|
                0 <= k < out.len() && j < right.len() ==> entry_le(
                    #[trigger] out[k],
                    right[j as int],
                ),
        decreases left.len() - i + right.len() - j,
    {
        let from_left: bool = if i < left.len() && j < right.len() {
            entry_comes_first(left[i], right[j])
        } else {
            i < left.len()
        };
        let ghost before = out@;
        if from_left {
            let item: (usize, usize) = left[i];
            out.push(item);
            proof {
                broadcast use vstd::multiset::group_multiset_axioms;

                assert(left@.take(i + 1) =~= left@.take(i as int).push(item));
                to_multiset_build(left@.take(i as int), item);
                to_multiset_build(before, item);
                assert(out@.to_multiset() =~= left@.take(i + 1).to_multiset().add(
                    right@.take(j as int).to_multiset(),
                ));
                if i + 1 < left.len() {
                    assert(entry_le(left[i as int], left[i + 1]));
                }
            }
            i = i + 1;
        } else {
            let item: (usize, usize) = right[j];
            out.push(item);
            proof {
                broadcast use vstd::multiset::group_multiset_axioms;

                assert(right@.take(j + 1) =~= right@.take(j as int).push(item));
                to_multiset_build(right@.take(j as int), item);
                to_multiset_build(before, item);
                assert(out@.to_multiset() =~= left@.take(i as int).to_multiset().add(
                    right@.take(j + 1).to_multiset(),
                ));
                if j + 1 < right.len() {
                    assert(entry_le(right[j as int], right[j + 1]));
                }
            }
            j = j + 1;
        }
    }
    proof {
        assert(left@.take(i as int) =~= left@);
        assert(right@.take(j as int) =~= right@);
    }
    out
}

/// Sorts the entries of `entries` between `lo` and `hi` into a new vector.
fn sort_range(entries: &Vec<(usize, usize)>, lo: usize, hi: usize) -> (out: Vec<(usize, usize)>)
    requires
        lo <= hi <= entries.len(),
    ensures
        sorted_entries(out@),
        out@.to_multiset() == entries@.subrange(lo as int, hi as int).to_multiset(),
        out.len() == hi - lo,
    decreases hi - lo,
{
    if hi - lo <= 1 {
        let mut out: Vec<(usize, usize)> = Vec::new();
        if lo < hi {
            out.push(entries[lo]);
        }
        proof {
            assert(out@ =~= entries@.subrange(lo as int, hi as int));
        }
        out
    } else {
        let mid: usize = lo + (hi - lo) / 2;
        let left = sort_range(entries, lo, mid);
        let right = sort_range(entries, mid, hi);
        proof {
            let whole = entries@.subrange(lo as int, hi as int);
            let front = entries@.subrange(lo as int, mid as int);
            let back = entries@.subrange(mid as int, hi as int);
            assert(whole =~= front + back);
            lemma_multiset_commutative(front, back);
        }
        merge(&left, &right)
    }
}

/// Sorts lookup entries by cell key, and entries of one key by particle
/// index. The result holds the entries of the input, each as often as the
/// input does.
pub fn sort_entries(entries: &Vec<(usize, usize)>) -> (out: Vec<(usize, usize)>)
    ensures
        sorted_entries(out@),
        out@.to_multiset() == entries@.to_multiset(),
        out.len() == entries.len(),
{
    proof {
        assert(entries@.subrange(0, entries.len() as int) =~= entries@);
    }
    sort_range(entries, 0, entries.len())
}

} // verus!

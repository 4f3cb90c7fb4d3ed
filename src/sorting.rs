use vstd::prelude::*;
use vstd::seq_lib::lemma_multiset_commutative;

verus! {

broadcast use vstd::seq_lib::group_to_multiset_ensures;

/// `s` is in ascending order.
pub open spec fn sorted(s: Seq<i32>) -> bool {
    forall|i: int, j: int| 0 <= i < j < s.len() ==> s[i] <= s[j]
}

/// Every item of `t` also occurs in `s`, given that they hold the same items.
proof fn lemma_same_items_contains(s: Seq<i32>, t: Seq<i32>, k: int)
    requires
        s.to_multiset() == t.to_multiset(),
        0 <= k < t.len(),
    ensures
        s.contains(t[k]),
{
    assert(t.contains(t[k]));
    assert(t.to_multiset().count(t[k]) > 0);
    assert(s.to_multiset().count(t[k]) > 0);
}

/// Sorts `arr` ascending by three-way partitioning round the middle item.
pub fn quicksort(arr: Vec<i32>) -> (r: Vec<i32>)
    ensures
        sorted(r@),
        r@.to_multiset() == arr@.to_multiset(),
    decreases arr@.len(),
{
    if arr.len() <= 1 {
        return arr;
    }
    let pivot = arr[arr.len() / 2];
    let mut left: Vec<i32> = Vec::new();
    let mut middle: Vec<i32> = Vec::new();
    let mut right: Vec<i32> = Vec::new();
    let mut i: usize = 0;
    while i < arr.len()
        invariant
            i <= arr.len(),
            arr.len() > 1,
            pivot == arr@[(arr.len() / 2) as int],
            forall|k: int| 0 <= k < left@.len() ==> left@[k] < pivot,
            forall|k: int| 0 <= k < middle@.len() ==> middle@[k] == pivot,
            forall|k: int| 0 <= k < right@.len() ==> right@[k] > pivot,
            arr@.subrange(0, i as int).to_multiset() == left@.to_multiset().add(
                middle@.to_multiset(),
            ).add(right@.to_multiset()),
            left@.len() + middle@.len() + right@.len() == i,
            (i > arr.len() / 2) ==> middle@.len() > 0,
        decreases arr.len() - i,
    {
        let x = arr[i];
        assert(arr@.subrange(0, i + 1) == arr@.subrange(0, i as int).push(x));
        if x < pivot {
            left.push(x);
        } else if x == pivot {
            middle.push(x);
        } else {
            right.push(x);
        }
        i = i + 1;
    }
    assert(arr@.subrange(0, arr@.len() as int) == arr@);
    let ghost l = left@;
    let ghost m = middle@;
    let ghost rt = right@;
    let sorted_left = quicksort(left);
    let mut sorted_right = quicksort(right);
    let ghost sl = sorted_left@;
    let ghost sr = sorted_right@;
    let mut result = sorted_left;
    result.append(&mut middle);
    result.append(&mut sorted_right);
    proof {
        lemma_multiset_commutative(sl, m);
        lemma_multiset_commutative(sl + m, sr);
        assert(result@ == sl + m + sr);
        assert forall|a: int, b: int| 0 <= a < b < result@.len() implies result@[a]
            <= result@[b] by {
            let (ls, ms) = (sl.len() as int, sl.len() + m.len());
            if a < ls {
                lemma_same_items_contains(l, sl, a);
            }
            if b >= ms {
                lemma_same_items_contains(rt, sr, b - ms);
            }
            if ls <= a < ms {
                assert(result@[a] == m[a - ls]);
            }
            if ls <= b < ms {
                assert(result@[b] == m[b - ls]);
            }
        }
    }
    result
}

/// Whether `arr` is in ascending order.
pub fn is_sorted(arr: &[i32]) -> (r: bool)
    ensures
        r == sorted(arr@),
{
    let mut i: usize = 1;
    while i < arr.len()
        invariant
            1 <= i,
            sorted(arr@.subrange(0, if i <= arr@.len() { i as int } else { arr@.len() as int })),
        decreases arr.len() - i,
    {
        if arr[i - 1] > arr[i] {
            return false;
        }
        assert forall|a: int, b: int| 0 <= a < b < i + 1 implies arr@[a] <= arr@[b] by {
            if b < i {
                assert(arr@.subrange(0, i as int)[a] <= arr@.subrange(0, i as int)[b]);
            } else if a < i - 1 {
                assert(arr@.subrange(0, i as int)[a] <= arr@.subrange(0, i as int)[i - 1]);
            }
        }
        assert(sorted(arr@.subrange(0, i + 1)));
        i = i + 1;
    }
    if arr.len() > 0 {
        assert(arr@.subrange(0, arr@.len() as int) == arr@);
    }
    true
}

} // verus!

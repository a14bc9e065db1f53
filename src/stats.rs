//! The median and the mode of a list of integers.
use vstd::prelude::*;

verus! {

broadcast use vstd::seq_lib::group_to_multiset_ensures;

/// Items in ascending order.
pub open spec fn nondecreasing(s: Seq<i32>) -> bool {
    forall|i: int, j: int| 0 <= i < j < s.len() ==> s[i] <= s[j]
}

/// Twice the median of the ascending, non-empty `s`: twice its middle item,
/// or the sum of its two middle items where their number is even.
pub open spec fn twice_median(s: Seq<i32>) -> int {
    let mid = (s.len() / 2) as int;
    if s.len() % 2 == 0 {
        s[mid - 1] + s[mid]
    } else {
        2 * s[mid]
    }
}

/// How often `x` occurs in `s`.
pub open spec fn occurrences(s: Seq<i32>, x: i32) -> nat {
    s.to_multiset().count(x)
}

/// Relies on std's `slice::sort_unstable`: afterwards the vector holds the
/// same items, in ascending order.
#[verifier::external_body]
fn sort_ascending(v: &mut Vec<i32>)
    ensures
        final(v)@.to_multiset() == old(v)@.to_multiset(),
        nondecreasing(final(v)@),
{
    v.sort_unstable();
}

/// How often `x` occurs in `v`.
fn count_of(v: &Vec<i32>, x: i32) -> (r: usize)
    ensures
        r == occurrences(v@, x),
{
    let mut c: usize = 0;
    let mut j: usize = 0;
    assert(v@.take(0) =~= Seq::<i32>::empty());
    while j < v.len()
        invariant
            j <= v.len(),
            c == v@.take(j as int).to_multiset().count(x),
            c <= j,
        decreases v.len() - j,
    {
        assert(v@.take(j + 1) =~= v@.take(j as int).push(v@[j as int]));
        if v[j] == x {
            c = c + 1;
        }
        j = j + 1;
    }
    assert(v@.take(j as int) =~= v@);
    c
}

/// Twice the median of `nums` (an exact integer, where the median itself may
/// end in one half), and its mode: the item that occurs most often, the
/// smallest such where several do.
pub fn get_median_mode(nums: Vec<i32>) -> (r: (i64, i32))
    requires
        nums.len() > 0,
    ensures
        exists|s: Seq<i32>|
            nondecreasing(s) && s.to_multiset() == nums@.to_multiset() && r.0 == twice_median(s),
        nums@.contains(r.1),
        forall|x: i32| #[trigger] occurrences(nums@, x) <= occurrences(nums@, r.1),
        forall|x: i32| #[trigger] occurrences(nums@, x) == occurrences(nums@, r.1) ==> r.1 <= x,
{
    let mut best: i32 = nums[0];
    let mut best_count = count_of(&nums, best);
    let mut i: usize = 1;
    while i < nums.len()
        invariant
            1 <= i <= nums.len(),
            nums@.contains(best),
            best_count == occurrences(nums@, best),
            forall|j: int|
                0 <= j < i ==> occurrences(nums@, #[trigger] nums@[j]) < best_count || (
                occurrences(nums@, nums@[j]) == best_count && best <= nums@[j]),
        decreases nums.len() - i,
    {
        let c = count_of(&nums, nums[i]);
        if c > best_count || (c == best_count && nums[i] < best) {
            best = nums[i];
            best_count = c;
        }
        i = i + 1;
    }
    assert forall|x: i32| #[trigger] occurrences(nums@, x) <= occurrences(nums@, best) && (occurrences(nums@, x)
        == occurrences(nums@, best) ==> best <= x) by {
        if nums@.contains(x) {
            let j = choose|j: int| 0 <= j < nums@.len() && nums@[j] == x;
            assert(occurrences(nums@, nums@[j]) <= best_count);
        } else {
            assert(occurrences(nums@, best) > 0);
        }
    }
    let mut sorted = nums;
    sort_ascending(&mut sorted);
    proof {
        assert(sorted@.len() == sorted@.to_multiset().len());
    }
    let mid = sorted.len() / 2;
    let twice: i64 = if sorted.len() % 2 == 0 {
        sorted[mid - 1] as i64 + sorted[mid] as i64
    } else {
        2 * (sorted[mid] as i64)
    };
    (twice, best)
}

} // verus!

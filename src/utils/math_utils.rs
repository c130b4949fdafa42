//! Statistics over slices of integers.

use vstd::prelude::*;

verus! {

/// The sum of the elements of `s`.
pub open spec fn sum_of(s: Seq<i32>) -> int
    decreases s.len(),
{
    if s.len() == 0 {
        0
    } else {
        sum_of(s.drop_last()) + s.last()
    }
}

/// `m` is an element of `s` and no element of `s` exceeds it.
pub open spec fn is_max_of(m: i32, s: Seq<i32>) -> bool {
    s.contains(m) && forall|i: int| 0 <= i < s.len() ==> s[i] <= m
}

/// `m` is an element of `s` and no element of `s` is below it.
pub open spec fn is_min_of(m: i32, s: Seq<i32>) -> bool {
    s.contains(m) && forall|i: int| 0 <= i < s.len() ==> m <= s[i]
}

/// The exact sum of `numbers`; the arithmetic mean is this sum divided by
/// the length (and zero for an empty slice).
pub fn sum(numbers: &[i32]) -> (r: i128)
    ensures
        r == sum_of(numbers@),
{
    let n = numbers.len();
    let mut acc: i128 = 0;
    let mut i: usize = 0;
    while i < n
        invariant
            i <= n == numbers@.len(),
            acc == sum_of(numbers@.take(i as int)),
            -(i * 0x8000_0000) <= acc <= i * 0x8000_0000,
        decreases n - i,
    {
        assert(numbers@.take(i + 1).drop_last() =~= numbers@.take(i as int));
        acc = acc + numbers[i] as i128;
        i = i + 1;
    }
    assert(numbers@.take(n as int) =~= numbers@);
    acc
}

/// The largest element of `numbers`, or `None` when it is empty.
pub fn max(numbers: &[i32]) -> (r: Option<i32>)
    ensures
        match r {
            None => numbers@.len() == 0,
            Some(m) => is_max_of(m, numbers@),
        },
{
    let n = numbers.len();
    if n == 0 {
        return None;
    }
    let mut best = numbers[0];
    let ghost mut at: int = 0;
    let mut i: usize = 1;
    while i < n
        invariant
            1 <= i <= n == numbers@.len(),
            0 <= at < i,
            numbers@[at] == best,
            forall|j: int| 0 <= j < i ==> numbers@[j] <= best,
        decreases n - i,
    {
        if numbers[i] > best {
            best = numbers[i];
            proof {
                at = i as int;
            }
        }
        i = i + 1;
    }
    assert(numbers@[at] == best);
    Some(best)
}

/// The smallest element of `numbers`, or `None` when it is empty.
pub fn min(numbers: &[i32]) -> (r: Option<i32>)
    ensures
        match r {
            None => numbers@.len() == 0,
            Some(m) => is_min_of(m, numbers@),
        },
{
    let n = numbers.len();
    if n == 0 {
        return None;
    }
    let mut best = numbers[0];
    let ghost mut at: int = 0;
    let mut i: usize = 1;
    while i < n
        invariant
            1 <= i <= n == numbers@.len(),
            0 <= at < i,
            numbers@[at] == best,
            forall|j: int| 0 <= j < i ==> best <= numbers@[j],
        decreases n - i,
    {
        if numbers[i] < best {
            best = numbers[i];
            proof {
                at = i as int;
            }
        }
        i = i + 1;
    }
    assert(numbers@[at] == best);
    Some(best)
}

} // verus!

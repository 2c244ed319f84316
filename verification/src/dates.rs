//! Runs of consecutive days.

use vstd::prelude::*;

verus! {

/// The days from `start` to `end`, both included, as a sequence; empty where
/// `start` lies after `end`. Days are numbered consecutively from a fixed
/// day.
pub open spec fn days_between(start: int, end: int) -> Seq<int> {
    if start > end {
        Seq::empty()
    } else {
        Seq::new((end - start + 1) as nat, |i: int| start + i)
    }
}

/// The days of a vector as mathematical integers.
pub open spec fn days_of(v: Seq<i32>) -> Seq<int> {
    v.map_values(|d: i32| d as int)
}

/// All days from `start` to `end`, both included. Where `start` lies after
/// `end`, there are none.
pub fn all_dates_from(start: i32, end: i32) -> (r: Vec<i32>)
    requires
        end - start < usize::MAX,
    ensures
        days_of(r@) == days_between(start as int, end as int),
{
    let mut r: Vec<i32> = Vec::new();
    if start > end {
        assert(days_of(r@) =~= days_between(start as int, end as int));
        return r;
    }
    let mut date: i32 = start;
    loop
        invariant_except_break
            r@.len() == date - start,
        invariant
            start <= date <= end,
            end - start < usize::MAX,
            forall|i: int| 0 <= i < r@.len() ==> r@[i] == start + i,
        ensures
            date == end,
            r@.len() == end - start + 1,
            forall|i: int| 0 <= i < r@.len() ==> r@[i] == start + i,
        decreases end - date,
    {
        r.push(date);
        if date == end {
            break ;
        }
        date += 1;
    }
    assert(days_of(r@) =~= days_between(start as int, end as int));
    r
}

/// All days from `start` to `end`, both included: another name for
/// `all_dates_from`.
pub fn date_range(start: i32, end: i32) -> (r: Vec<i32>)
    requires
        end - start < usize::MAX,
    ensures
        days_of(r@) == days_between(start as int, end as int),
{
    all_dates_from(start, end)
}

} // verus!

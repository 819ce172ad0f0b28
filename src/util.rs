use vstd::prelude::*;

use crate::datetime::DurationWrapper;
use crate::measure::{MICRO, ceil_of, ceil_units, floor_of, floor_units};

verus! {

/// What an empty series gives as its lower bound, in whole units.
pub const MIN_SEED: i64 = 1000;

/// What an empty series gives as its upper bound, in whole units.
pub const MAX_SEED: i64 = -1000;

/// Smallest value of a non-empty series (micro-units).
pub open spec fn min_value(s: Seq<(DurationWrapper, i64)>) -> int
    decreases s.len(),
{
    if s.len() <= 1 {
        s[0].1 as int
    } else {
        let m = min_value(s.drop_last());
        if s.last().1 < m { s.last().1 as int } else { m }
    }
}

/// Largest value of a non-empty series (micro-units).
pub open spec fn max_value(s: Seq<(DurationWrapper, i64)>) -> int
    decreases s.len(),
{
    if s.len() <= 1 {
        s[0].1 as int
    } else {
        let m = max_value(s.drop_last());
        if s.last().1 > m { s.last().1 as int } else { m }
    }
}

proof fn lemma_extremes_bound(s: Seq<(DurationWrapper, i64)>)
    requires
        s.len() > 0,
    ensures
        forall|i: int| 0 <= i < s.len() ==> min_value(s) <= #[trigger] s[i].1 <= max_value(s),
        exists|i: int| 0 <= i < s.len() && #[trigger] s[i].1 == min_value(s),
        exists|i: int| 0 <= i < s.len() && #[trigger] s[i].1 == max_value(s),
        i64::MIN <= min_value(s) <= max_value(s) <= i64::MAX,
    decreases s.len(),
{
    if s.len() > 1 {
        let t = s.drop_last();
        lemma_extremes_bound(t);
        assert forall|i: int| 0 <= i < s.len() - 1 implies s[i] == t[i] by {}
        let j = choose|j: int| 0 <= j < t.len() && #[trigger] t[j].1 == min_value(t);
        let k = choose|k: int| 0 <= k < t.len() && #[trigger] t[k].1 == max_value(t);
        assert(s[j] == t[j]);
        assert(s[k] == t[k]);
        if s.last().1 < min_value(t) {
            assert(s[s.len() - 1].1 == min_value(s));
        } else {
            assert(s[j].1 == min_value(s));
        }
        if s.last().1 > max_value(t) {
            assert(s[s.len() - 1].1 == max_value(s));
        } else {
            assert(s[k].1 == max_value(s));
        }
    } else {
        assert(s[0].1 == min_value(s));
        assert(s[0].1 == max_value(s));
    }
}

/// Axis bounds of a series: the floor of its smallest value and the ceiling of
/// its largest, in whole units, so that the bounds enclose every point and
/// each lies less than one unit from the data.
///
/// An empty series has no bounds: it gives the inverted pair
/// `(MIN_SEED, MAX_SEED)`, that is `(1000, -1000)`, which callers must not use
/// as a range.
pub fn find_extremes(data: &Vec<(DurationWrapper, i64)>) -> (r: (i64, i64))
    ensures
        data@.len() == 0 ==> r == (MIN_SEED, MAX_SEED),
        data@.len() > 0 ==> r.0 == floor_of(min_value(data@)) && r.1 == ceil_of(max_value(data@)),
        forall|i: int|
            0 <= i < data@.len() ==> r.0 * MICRO <= #[trigger] data@[i].1 <= r.1 * MICRO,
        data@.len() > 0 ==> exists|i: int|
            0 <= i < data@.len() && #[trigger] data@[i].1 < r.0 * MICRO + MICRO,
        data@.len() > 0 ==> exists|i: int|
            0 <= i < data@.len() && #[trigger] data@[i].1 > r.1 * MICRO - MICRO,
{
    if data.len() == 0 {
        return (MIN_SEED, MAX_SEED);
    }
    let mut min_v: i64 = data[0].1;
    let mut max_v: i64 = data[0].1;
    let mut i: usize = 1;
    assert(data@.take(1).len() == 1);
    while i < data.len()
        invariant
            1 <= i <= data@.len(),
            min_v == min_value(data@.take(i as int)),
            max_v == max_value(data@.take(i as int)),
        decreases data@.len() - i,
    {
        assert(data@.take(i as int + 1).drop_last() == data@.take(i as int));
        let v = data[i].1;
        if min_v > v {
            min_v = v;
        }
        if max_v < v {
            max_v = v;
        }
        i = i + 1;
    }
    assert(data@.take(i as int) == data@);
    proof {
        lemma_extremes_bound(data@);
        crate::measure::lemma_unit_bounds(min_v as int);
        crate::measure::lemma_unit_bounds(max_v as int);
    }
    (floor_units(min_v), ceil_units(max_v))
}

} // verus!

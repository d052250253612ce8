use vstd::prelude::*;
use crate::errors::RangeError;

verus! {

/// An integer interval with an inclusive or exclusive bound on each side,
/// as written in notation such as `"[2,6)"`.
///
/// A value is normally obtained through [`Range::new`], which guarantees
/// `start_value < end_value` (see [`Range::wf`]).
#[derive(Clone, Copy, Debug, PartialEq, Eq, Structural)]
pub struct Range {
    /// True when the lower bound is written `[`, false when `(`.
    pub start_inclusive: bool,
    /// The number written before the comma.
    pub start_value: i32,
    /// The number written after the comma.
    pub end_value: i32,
    /// True when the upper bound is written `]`, false when `)`.
    pub end_inclusive: bool,
}

impl Range {
    /// The construction invariant: the raw bounds are strictly ordered.
    pub open spec fn wf(self) -> bool {
        self.start_value < self.end_value
    }

    /// Whether the integer `p` lies within the effective bounds.
    pub open spec fn in_bounds(self, p: int) -> bool {
        &&& if self.start_inclusive {
                p >= self.start_value
            } else {
                p > self.start_value
            }
        &&& if self.end_inclusive {
                p <= self.end_value
            } else {
                p < self.end_value
            }
    }

    /// The smallest integer that could lie in the interval.
    pub open spec fn eff_start(self) -> int {
        if self.start_inclusive {
            self.start_value as int
        } else {
            self.start_value + 1
        }
    }

    /// One past the largest integer that could lie in the interval.
    pub open spec fn eff_end(self) -> int {
        if self.end_inclusive {
            self.end_value + 1
        } else {
            self.end_value as int
        }
    }

    /// How many integers the interval covers.
    pub open spec fn points_len(self) -> nat {
        if self.eff_end() > self.eff_start() {
            (self.eff_end() - self.eff_start()) as nat
        } else {
            0
        }
    }

    /// Every integer the interval covers, in ascending order.
    pub open spec fn points_spec(self) -> Seq<i32> {
        Seq::new(self.points_len(), |i: int| (self.eff_start() + i) as i32)
    }

    /// What [`Range::contains`] returns: an error on an empty input,
    /// otherwise whether every given point lies within the bounds.
    pub open spec fn contains_spec(self, pts: Seq<i32>) -> Result<bool, RangeError> {
        if pts.len() == 0 {
            Err(RangeError::EmptyInput)
        } else {
            Ok(forall|i: int| 0 <= i < pts.len() ==> self.in_bounds(#[trigger] pts[i] as int))
        }
    }

    /// What [`Range::contains_range`] returns: whether `other` covers at
    /// least one integer and every integer it covers lies in `self`.
    pub open spec fn contains_range_spec(self, other: Range) -> bool {
        match self.contains_spec(other.points_spec()) {
            Ok(b) => b,
            Err(_) => false,
        }
    }

    /// What [`Range::overlaps_range`] returns. Deliberately compares the raw
    /// bound values, not the effective ones: intervals that merely touch at
    /// exclusive bounds still count as overlapping.
    pub open spec fn overlaps_spec(self, other: Range) -> bool {
        self.start_value <= other.end_value && self.end_value >= other.start_value
    }

    /// What [`Range::equals`] returns: all four fields match exactly.
    pub open spec fn equals_spec(self, other: Range) -> bool {
        &&& self.start_value == other.start_value
        &&& self.end_value == other.end_value
        &&& self.start_inclusive == other.start_inclusive
        &&& self.end_inclusive == other.end_inclusive
    }

    /// True iff every point of the given non-empty collection lies within
    /// the effective bounds; `EmptyInput` when no point was given.
    pub fn contains(&self, integer_range: Vec<i32>) -> (r: Result<bool, RangeError>)
        ensures
            r == self.contains_spec(integer_range@),
    {
        if integer_range.len() == 0 {
            return Err(RangeError::EmptyInput);
        }
        let mut idx: usize = 0;
        let mut all_in: bool = true;
        while idx < integer_range.len()
            invariant
                idx <= integer_range@.len(),
                all_in == (forall|j: int|
                    0 <= j < idx ==> self.in_bounds(#[trigger] integer_range@[j] as int)),
            decreases integer_range@.len() - idx,
        {
            if !self.point_in_bounds(integer_range[idx]) {
                all_in = false;
            }
            idx += 1;
        }
        Ok(all_in)
    }

    /// Whether a single integer lies within the effective bounds.
    fn point_in_bounds(&self, p: i32) -> (r: bool)
        ensures
            r == self.in_bounds(p as int),
    {
        let lower_ok = if self.start_inclusive {
            p >= self.start_value
        } else {
            p > self.start_value
        };
        let upper_ok = if self.end_inclusive {
            p <= self.end_value
        } else {
            p < self.end_value
        };
        lower_ok && upper_ok
    }

    /// Every integer the interval covers, in ascending order; empty when the
    /// effective bounds exclude each other.
    pub fn all_points(&self) -> (r: Vec<i32>)
        ensures
            r@ == self.points_spec(),
    {
        let first: i64 = if self.start_inclusive {
            self.start_value as i64
        } else {
            self.start_value as i64 + 1
        };
        let last: i64 = if self.end_inclusive {
            self.end_value as i64
        } else {
            self.end_value as i64 - 1
        };
        let mut points: Vec<i32> = Vec::new();
        let mut p: i64 = first;
        while p <= last
            invariant
                first == self.eff_start(),
                last == self.eff_end() - 1,
                first <= p,
                p <= last + 1 || p == first,
                points@ == Seq::new((p - first) as nat, |i: int| (first + i) as i32),
            decreases last + 1 - p,
        {
            points.push(p as i32);
            p += 1;
        }
        proof {
            assert(points@ =~= self.points_spec());
        }
        points
    }

    /// Whether `other` covers at least one integer and all of them lie in
    /// `self`; false when `other` covers none.
    pub fn contains_range(&self, other: Range) -> (r: bool)
        ensures
            r == self.contains_range_spec(other),
    {
        let points = other.all_points();
        if points.len() == 0 {
            false
        } else {
            match self.contains(points) {
                Ok(b) => b,
                Err(_) => false,
            }
        }
    }

    /// The first and last integer the interval covers, as a two-element
    /// vector; `EmptyRange` when it covers none.
    pub fn end_points(&self) -> (r: Result<Vec<i32>, RangeError>)
        ensures
            self.points_len() == 0 ==> r == Err::<Vec<i32>, RangeError>(RangeError::EmptyRange),
            self.points_len() > 0 ==> (r matches Ok(v) && v@ =~= seq![
                self.points_spec().first(),
                self.points_spec().last(),
            ]),
    {
        let points = self.all_points();
        if points.len() == 0 {
            Err(RangeError::EmptyRange)
        } else {
            let mut ends: Vec<i32> = Vec::new();
            ends.push(points[0]);
            ends.push(points[points.len() - 1]);
            Ok(ends)
        }
    }

    /// Whether the two intervals overlap, judged on the raw bound values.
    pub fn overlaps_range(&self, other: Range) -> (r: bool)
        ensures
            r == self.overlaps_spec(other),
    {
        self.start_value <= other.end_value && self.end_value >= other.start_value
    }

    /// Whether the two intervals were written with exactly the same bounds
    /// and brackets.
    pub fn equals(&self, other: Range) -> (r: bool)
        ensures
            r == self.equals_spec(other),
    {
        self.start_value == other.start_value
            && self.end_value == other.end_value
            && self.start_inclusive == other.start_inclusive
            && self.end_inclusive == other.end_inclusive
    }
}

/// The two end points of an interval that covers at least one integer are
/// exactly the minimum and the maximum of all covered points.
pub proof fn lemma_end_points_are_min_max(r: Range)
    requires
        r.points_len() > 0,
    ensures
        r.points_spec().first() == r.eff_start() as i32,
        r.points_spec().last() == (r.eff_end() - 1) as i32,
        forall|i: int| 0 <= i < r.points_spec().len() ==> r.points_spec().first()
            <= #[trigger] r.points_spec()[i] <= r.points_spec().last(),
{
}

/// Membership testing is order-independent: two point collections that hold
/// the same points in any order get the same answer from `contains`.
pub proof fn lemma_contains_order_independent(r: Range, a: Seq<i32>, b: Seq<i32>)
    requires
        a.to_multiset() == b.to_multiset(),
    ensures
        r.contains_spec(a) == r.contains_spec(b),
{
    broadcast use vstd::seq_lib::group_to_multiset_ensures;

    assert(a.len() == a.to_multiset().len());
    assert(b.len() == b.to_multiset().len());
    assert(a.len() == b.len());
    if (forall|i: int| 0 <= i < a.len() ==> r.in_bounds((#[trigger] a[i]) as int)) {
        assert forall|j: int| 0 <= j < b.len() implies r.in_bounds((#[trigger] b[j]) as int) by {
            assert(b.contains(b[j]));
            assert(a.to_multiset().count(b[j]) > 0);
            assert(a.contains(b[j]));
            let w = choose|w: int| 0 <= w < a.len() && a[w] == b[j];
            assert(r.in_bounds(a[w] as int));
        }
    }
    if (forall|j: int| 0 <= j < b.len() ==> r.in_bounds((#[trigger] b[j]) as int)) {
        assert forall|i: int| 0 <= i < a.len() implies r.in_bounds((#[trigger] a[i]) as int) by {
            assert(a.contains(a[i]));
            assert(b.to_multiset().count(a[i]) > 0);
            assert(b.contains(a[i]));
            let w = choose|w: int| 0 <= w < b.len() && b[w] == a[i];
            assert(r.in_bounds(b[w] as int));
        }
    }
}

/// Interval equality is reflexive.
pub proof fn lemma_equals_reflexive(r: Range)
    ensures
        r.equals_spec(r),
{
}

/// Interval equality is symmetric.
pub proof fn lemma_equals_symmetric(a: Range, b: Range)
    ensures
        a.equals_spec(b) == b.equals_spec(a),
{
}

/// Interval equality is an exact field match: it holds precisely when the
/// two values agree in all four fields, never merely because they cover the
/// same points.
pub proof fn lemma_equals_exact(a: Range, b: Range)
    ensures
        a.equals_spec(b) <==> a == b,
{
}

/// The overlap test is symmetric in its two intervals.
pub proof fn lemma_overlaps_symmetric(a: Range, b: Range)
    ensures
        a.overlaps_spec(b) == b.overlaps_spec(a),
{
}

} // verus!

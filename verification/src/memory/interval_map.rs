//! The store behind the address-space model: payloads attached to address
//! ranges that never overlap, kept in address order.
use crate::address::{Address, Interval};
use vstd::prelude::*;

verus! {

/// A strict insertion met a range that is already occupied.
#[derive(Clone, Copy, Debug, PartialEq, Eq, Structural)]
pub struct OverlapError {
    /// The first stored range, in address order, that the new one intersects.
    pub existing: Interval,
}

/// A point lookup hit no stored range.
#[derive(Clone, Copy, Debug, PartialEq, Eq, Structural)]
pub struct NotFound {
    pub address: Address,
}

/// Every range holds an address, and each ends before the next one starts.
pub open spec fn ordered<V>(s: Seq<(Interval, V)>) -> bool {
    &&& forall|i: int| 0 <= i < s.len() ==> !(#[trigger] s[i]).0.is_empty()
    &&& forall|i: int, j: int| 0 <= i < j < s.len() ==> (#[trigger] s[i]).0.end.0 <= (#[trigger] s[j]).0.start.0
}

/// The addresses that lie in some range of `s`.
pub open spec fn covered_by<V>(s: Seq<(Interval, V)>) -> Set<int> {
    Set::new(|a: int| exists|i: int| 0 <= i < s.len() && (#[trigger] s[i]).0.contains(a))
}

/// Whether some range of `s` shares an address with `interval`.
pub open spec fn any_intersects<V>(s: Seq<(Interval, V)>, interval: Interval) -> bool {
    exists|i: int| 0 <= i < s.len() && (#[trigger] s[i]).0.intersects(interval)
}

/// No two stored ranges share an address.
pub proof fn stored_ranges_never_overlap<V>(s: Seq<(Interval, V)>, i: int, j: int)
    requires
        ordered(s),
        0 <= i < s.len(),
        0 <= j < s.len(),
        i != j,
    ensures
        !s[i].0.intersects(s[j].0),
{
    if i < j {
        assert(s[i].0.end.0 <= s[j].0.start.0);
    } else {
        assert(s[j].0.end.0 <= s[i].0.start.0);
    }
}

/// A strict insertion that goes through adds the addresses of the new
/// range to those covered, and no others.
pub proof fn insertion_covers<V>(s: Seq<(Interval, V)>, k: int, interval: Interval, payload: V)
    requires
        0 <= k <= s.len(),
    ensures
        covered_by(s.insert(k, (interval, payload))) == covered_by(s).union(interval.points()),
{
    let t = s.insert(k, (interval, payload));
    assert forall|a: int| covered_by(t).contains(a) <==> covered_by(s).union(
        interval.points(),
    ).contains(a) by {
        assert(interval.points().contains(a) == interval.contains(a));
        if covered_by(t).contains(a) {
            let i = choose|i: int| 0 <= i < t.len() && (#[trigger] t[i]).0.contains(a);
            if i < k {
                assert(s[i].0.contains(a));
            } else if i > k {
                assert(s[i - 1].0.contains(a));
            }
        }
        if covered_by(s).contains(a) {
            let i = choose|i: int| 0 <= i < s.len() && (#[trigger] s[i]).0.contains(a);
            if i < k {
                assert(t[i].0.contains(a));
            } else {
                assert(t[i + 1] == s[i]);
                assert(t[i + 1].0.contains(a));
            }
        }
        if interval.contains(a) {
            assert(t[k].0.contains(a));
        }
    }
    assert(covered_by(t) =~= covered_by(s).union(interval.points()));
}

/// How many ranges of `s` end at or below `point`. In an ordered sequence
/// these are its first ranges.
pub open spec fn ending_by<V>(s: Seq<(Interval, V)>, point: int) -> int
    decreases s.len(),
{
    if s.len() == 0 {
        0
    } else if s.last().0.end.0 <= point {
        s.len() as int
    } else {
        ending_by(s.drop_last(), point)
    }
}

/// How many ranges of `s` start below `point`. In an ordered sequence these
/// are its first ranges.
pub open spec fn starting_below<V>(s: Seq<(Interval, V)>, point: int) -> int
    decreases s.len(),
{
    if s.len() == 0 {
        0
    } else if s.last().0.start.0 < point {
        s.len() as int
    } else {
        starting_below(s.drop_last(), point)
    }
}

pub proof fn ending_by_bounds<V>(s: Seq<(Interval, V)>, point: int)
    requires
        ordered(s),
    ensures
        0 <= ending_by(s, point) <= s.len(),
        forall|i: int| 0 <= i < ending_by(s, point) ==> (#[trigger] s[i]).0.end.0 <= point,
        forall|i: int| ending_by(s, point) <= i < s.len() ==> (#[trigger] s[i]).0.end.0 > point,
    decreases s.len(),
{
    if s.len() == 0 {
    } else if s.last().0.end.0 <= point {
        assert forall|i: int| 0 <= i < s.len() implies (#[trigger] s[i]).0.end.0 <= point by {
            if i < s.len() - 1 {
                assert(s[i].0.end.0 <= s[s.len() - 1].0.start.0);
                assert(!s[s.len() - 1].0.is_empty());
            }
        }
    } else {
        let t = s.drop_last();
        assert(ordered(t));
        ending_by_bounds(t, point);
        assert forall|i: int| ending_by(s, point) <= i < s.len() implies (#[trigger] s[i]).0.end.0
            > point by {
            if i < t.len() {
                assert(t[i] == s[i]);
            }
        }
        assert forall|i: int| 0 <= i < ending_by(s, point) implies (#[trigger] s[i]).0.end.0
            <= point by {
            assert(t[i] == s[i]);
        }
    }
}

pub proof fn starting_below_bounds<V>(s: Seq<(Interval, V)>, point: int)
    requires
        ordered(s),
    ensures
        0 <= starting_below(s, point) <= s.len(),
        forall|i: int| 0 <= i < starting_below(s, point) ==> (#[trigger] s[i]).0.start.0 < point,
        forall|i: int| starting_below(s, point) <= i < s.len() ==> (#[trigger] s[i]).0.start.0 >= point,
    decreases s.len(),
{
    if s.len() == 0 {
    } else if s.last().0.start.0 < point {
        assert forall|i: int| 0 <= i < s.len() implies (#[trigger] s[i]).0.start.0 < point by {
            if i < s.len() - 1 {
                assert(s[i].0.end.0 <= s[s.len() - 1].0.start.0);
                assert(!s[i].0.is_empty());
            }
        }
    } else {
        let t = s.drop_last();
        assert(ordered(t));
        starting_below_bounds(t, point);
        assert forall|i: int| starting_below(s, point) <= i < s.len() implies (#[trigger] s[i]).0.start.0
            >= point by {
            if i < t.len() {
                assert(t[i] == s[i]);
            }
        }
        assert forall|i: int| 0 <= i < starting_below(s, point) implies (#[trigger] s[i]).0.start.0
            < point by {
            assert(t[i] == s[i]);
        }
    }
}

/// In an ordered sequence the ranges that intersect `interval` are those
/// from `ending_by(s, start)` up to `starting_below(s, end)`.
pub proof fn intersecting_run<V>(s: Seq<(Interval, V)>, interval: Interval)
    requires
        ordered(s),
        !interval.is_empty(),
    ensures
        0 <= ending_by(s, interval.start.0 as int) <= starting_below(s, interval.end.0 as int)
            <= s.len(),
        forall|i: int|
            0 <= i < s.len() ==> ((#[trigger] s[i]).0.intersects(interval) <==> ending_by(
                s,
                interval.start.0 as int,
            ) <= i < starting_below(s, interval.end.0 as int)),
{
    let lo = ending_by(s, interval.start.0 as int);
    let hi = starting_below(s, interval.end.0 as int);
    ending_by_bounds(s, interval.start.0 as int);
    starting_below_bounds(s, interval.end.0 as int);
    if lo > hi {
        assert(s[hi].0.start.0 >= interval.end.0);
        assert(s[hi].0.end.0 <= interval.start.0);
        assert(!s[hi].0.is_empty());
    }
    assert forall|i: int| 0 <= i < s.len() implies ((#[trigger] s[i]).0.intersects(interval) <==> lo
        <= i < hi) by {
        assert(!s[i].0.is_empty());
    }
}

/// Two sequences hold the same ranges at the same places.
pub open spec fn same_ranges<V, W>(s: Seq<(Interval, V)>, t: Seq<(Interval, W)>) -> bool {
    &&& s.len() == t.len()
    &&& forall|i: int| 0 <= i < s.len() ==> (#[trigger] s[i]).0 == (#[trigger] t[i]).0
}

proof fn counts_of_same_ranges<V, W>(s: Seq<(Interval, V)>, t: Seq<(Interval, W)>, point: int)
    requires
        same_ranges(s, t),
    ensures
        ending_by(s, point) == ending_by(t, point),
        starting_below(s, point) == starting_below(t, point),
    decreases s.len(),
{
    if s.len() > 0 {
        assert(s[s.len() - 1].0 == t[s.len() - 1].0);
        let s1 = s.drop_last();
        let t1 = t.drop_last();
        assert forall|i: int| 0 <= i < s1.len() implies (#[trigger] s1[i]).0 == (#[trigger] t1[i]).0 by {
            assert(s1[i] == s[i]);
            assert(t1[i] == t[i]);
        }
        counts_of_same_ranges(s1, t1, point);
    }
}

/// What is said of the ranges alone holds of both sequences or of neither.
pub proof fn same_ranges_agree<V, W>(s: Seq<(Interval, V)>, t: Seq<(Interval, W)>)
    requires
        same_ranges(s, t),
    ensures
        ordered(s) == ordered(t),
        covered_by(s) == covered_by(t),
        forall|interval: Interval| any_intersects(s, interval) == any_intersects(t, interval),
        forall|point: int| ending_by(s, point) == ending_by(t, point),
        forall|point: int| starting_below(s, point) == starting_below(t, point),
{
    if ordered(s) {
        assert forall|i: int, j: int| 0 <= i < j < t.len() implies (#[trigger] t[i]).0.end.0 <= (
        #[trigger] t[j]).0.start.0 by {
            assert(s[i].0.end.0 <= s[j].0.start.0);
        }
        assert forall|i: int| 0 <= i < t.len() implies !(#[trigger] t[i]).0.is_empty() by {
            assert(!s[i].0.is_empty());
        }
    }
    if ordered(t) {
        assert forall|i: int, j: int| 0 <= i < j < s.len() implies (#[trigger] s[i]).0.end.0 <= (
        #[trigger] s[j]).0.start.0 by {
            assert(t[i].0.end.0 <= t[j].0.start.0);
        }
        assert forall|i: int| 0 <= i < s.len() implies !(#[trigger] s[i]).0.is_empty() by {
            assert(!t[i].0.is_empty());
        }
    }
    assert forall|a: int| covered_by(s).contains(a) <==> covered_by(t).contains(a) by {
        if covered_by(s).contains(a) {
            let i = choose|i: int| 0 <= i < s.len() && (#[trigger] s[i]).0.contains(a);
            assert(t[i].0.contains(a));
        }
        if covered_by(t).contains(a) {
            let i = choose|i: int| 0 <= i < t.len() && (#[trigger] t[i]).0.contains(a);
            assert(s[i].0.contains(a));
        }
    }
    assert(covered_by(s) =~= covered_by(t));
    assert forall|interval: Interval| any_intersects(s, interval) == any_intersects(
        t,
        interval,
    ) by {
        if any_intersects(s, interval) {
            let i = choose|i: int| 0 <= i < s.len() && (#[trigger] s[i]).0.intersects(interval);
            assert(t[i].0.intersects(interval));
        }
        if any_intersects(t, interval) {
            let i = choose|i: int| 0 <= i < t.len() && (#[trigger] t[i]).0.intersects(interval);
            assert(s[i].0.intersects(interval));
        }
    }
    assert forall|point: int| ending_by(s, point) == ending_by(t, point) by {
        counts_of_same_ranges(s, t, point);
    }
    assert forall|point: int| starting_below(s, point) == starting_below(t, point) by {
        counts_of_same_ranges(s, t, point);
    }
}

/// `s` with the ranges that intersect `interval` taken out and `entry`, at
/// `interval`, put in their place.
pub open spec fn overwritten<V>(s: Seq<(Interval, V)>, interval: Interval, payload: V) -> Seq<
    (Interval, V),
> {
    s.subrange(0, ending_by(s, interval.start.0 as int)) + seq![(interval, payload)] + s.subrange(
        starting_below(s, interval.end.0 as int),
        s.len() as int,
    )
}

/// Overwriting keeps the order, and keeps every range that shares no
/// address with the new one.
pub proof fn overwritten_is_ordered<V>(s: Seq<(Interval, V)>, interval: Interval, payload: V)
    requires
        ordered(s),
        !interval.is_empty(),
    ensures
        ordered(overwritten(s, interval, payload)),
        forall|i: int|
            0 <= i < s.len() && !(#[trigger] s[i]).0.intersects(interval) ==> overwritten(
                s,
                interval,
                payload,
            ).contains(s[i]),
        overwritten(s, interval, payload).contains((interval, payload)),
{
    intersecting_run(s, interval);
    ending_by_bounds(s, interval.start.0 as int);
    starting_below_bounds(s, interval.end.0 as int);
    let lo = ending_by(s, interval.start.0 as int);
    let hi = starting_below(s, interval.end.0 as int);
    let t = overwritten(s, interval, payload);
    assert forall|a: int| 0 <= a < t.len() implies !(#[trigger] t[a]).0.is_empty() by {
        if a < lo {
            assert(t[a] == s[a]);
        } else if a > lo {
            assert(t[a] == s[a - lo - 1 + hi]);
        }
    }
    assert forall|a: int, b: int| 0 <= a < b < t.len() implies (#[trigger] t[a]).0.end.0 <= (
    #[trigger] t[b]).0.start.0 by {
        if a < lo {
            assert(t[a] == s[a]);
        } else if a > lo {
            assert(t[a] == s[a - lo - 1 + hi]);
        }
        if b < lo {
            assert(t[b] == s[b]);
        } else if b > lo {
            assert(t[b] == s[b - lo - 1 + hi]);
        }
    }
    assert forall|i: int| 0 <= i < s.len() && !(#[trigger] s[i]).0.intersects(
        interval,
    ) implies t.contains(s[i]) by {
        if i < lo {
            assert(t[i] == s[i]);
        } else {
            assert(i >= hi);
            assert(t[i - hi + lo + 1] == s[i]);
        }
    }
    assert(t[lo] == (interval, payload));
}

/// Payloads attached to address ranges that never overlap.
pub struct IntervalMap<V> {
    entries: Vec<(Interval, V)>,
}

impl<V> View for IntervalMap<V> {
    type V = Seq<(Interval, V)>;

    closed spec fn view(&self) -> Seq<(Interval, V)> {
        self.entries@
    }
}

impl<V> IntervalMap<V> {
    /// The stored ranges are non-empty, disjoint and in address order.
    pub open spec fn wf(&self) -> bool {
        ordered(self@)
    }

    /// The addresses that lie in some stored range.
    pub open spec fn covered(&self) -> Set<int> {
        covered_by(self@)
    }

    pub fn new() -> (m: IntervalMap<V>)
        ensures
            m@ == Seq::<(Interval, V)>::empty(),
            m.wf(),
    {
        IntervalMap { entries: Vec::new() }
    }

    /// The number of stored ranges.
    pub fn len(&self) -> (n: usize)
        ensures
            n == self@.len(),
    {
        self.entries.len()
    }

    /// The `i`-th stored range, in address order, with its payload.
    pub fn entry(&self, i: usize) -> (e: &(Interval, V))
        requires
            i < self@.len(),
        ensures
            *e == self@[i as int],
    {
        &self.entries[i]
    }

    /// The position of the stored range that holds `address`, if there is one.
    pub fn find(&self, address: Address) -> (r: Option<usize>)
        ensures
            match r {
                Some(i) => i < self@.len() && self@[i as int].0.contains(address.0 as int),
                None => !self.covered().contains(address.0 as int),
            },
    {
        let mut i: usize = 0;
        while i < self.entries.len()
            invariant
                i <= self.entries@.len(),
                forall|k: int| 0 <= k < i ==> !(#[trigger] self.entries@[k]).0.contains(address.0 as int),
            decreases self.entries@.len() - i,
        {
            if self.entries[i].0.has_point(address) {
                return Some(i);
            }
            i += 1;
        }
        None
    }

    /// The range that holds `address`, with its payload.
    pub fn get_at_point(&self, address: Address) -> (r: Result<&(Interval, V), NotFound>)
        ensures
            match r {
                Ok(e) => exists|i: int|
                    0 <= i < self@.len() && #[trigger] self@[i] == *e && e.0.contains(
                        address.0 as int,
                    ),
                Err(e) => e.address == address && !self.covered().contains(address.0 as int),
            },
    {
        match self.find(address) {
            Some(i) => Ok(&self.entries[i]),
            None => Err(NotFound { address }),
        }
    }

    /// Inserts `payload` under `interval` unless a stored range shares an
    /// address with it. A range that holds no address is accepted and leaves
    /// nothing behind, since there is no address to find it by.
    pub fn insert_strict(&mut self, interval: Interval, payload: V) -> (r: Result<(), OverlapError>)
        requires
            old(self).wf(),
        ensures
            final(self).wf(),
            r is Err <==> any_intersects(old(self)@, interval),
            r is Err ==> final(self)@ == old(self)@ && {
                let k = ending_by(old(self)@, interval.start.0 as int);
                0 <= k < old(self)@.len() && r->Err_0.existing == old(self)@[k].0
            },
            r is Ok && interval.is_empty() ==> final(self)@ == old(self)@,
            r is Ok && !interval.is_empty() ==> final(self)@ == old(self)@.insert(
                ending_by(old(self)@, interval.start.0 as int),
                (interval, payload),
            ),
    {
        if interval.holds_nothing() {
            return Ok(());
        }
        let ghost s = self.entries@;
        let mut pos: usize = 0;
        while pos < self.entries.len() && self.entries[pos].0.end.0 <= interval.start.0
            invariant
                pos <= self.entries@.len(),
                self.entries@ == s,
                ordered(s),
                forall|k: int| 0 <= k < pos ==> (#[trigger] s[k]).0.end.0 <= interval.start.0,
            decreases self.entries@.len() - pos,
        {
            pos += 1;
        }
        proof {
            ending_by_bounds(s, interval.start.0 as int);
            intersecting_run(s, interval);
            let lo = ending_by(s, interval.start.0 as int);
            if lo < pos {
                assert(s[lo].0.end.0 <= interval.start.0);
            }
            if pos < lo {
                assert(s[pos as int].0.end.0 <= interval.start.0);
            }
            assert(pos == lo);
        }
        if pos < self.entries.len() && self.entries[pos].0.overlaps(&interval) {
            return Err(OverlapError { existing: self.entries[pos].0 });
        }
        proof {
            let hi = starting_below(s, interval.end.0 as int);
            if pos < s.len() {
                assert(!s[pos as int].0.intersects(interval));
                assert(hi <= pos);
            }
            assert(!any_intersects(s, interval));
            let t = s.insert(pos as int, (interval, payload));
            assert forall|i: int, j: int| 0 <= i < j < t.len() implies (#[trigger] t[i]).0.end.0 <= (
            #[trigger] t[j]).0.start.0 by {
                if j == pos {
                    assert(t[i] == s[i]);
                } else if i == pos {
                    assert(t[j] == s[j - 1]);
                    assert(!s[j - 1].0.intersects(interval));
                    assert(s[j - 1].0.end.0 > interval.start.0);
                    assert(!s[j - 1].0.is_empty());
                } else {
                    let a = if i < pos { i } else { i - 1 };
                    let b = if j < pos { j } else { j - 1 };
                    assert(t[i] == s[a]);
                    assert(t[j] == s[b]);
                }
            }
            assert forall|i: int| 0 <= i < t.len() implies !(#[trigger] t[i]).0.is_empty() by {
                if i < pos {
                    assert(t[i] == s[i]);
                } else if i > pos {
                    assert(t[i] == s[i - 1]);
                }
            }
        }
        self.entries.insert(pos, (interval, payload));
        Ok(())
    }

    /// The payload of the range that holds `address`, to be changed in place.
    pub fn get_at_point_mut(&mut self, address: Address) -> (r: Result<&mut V, NotFound>)
        ensures
            old(self).wf() ==> final(self).wf(),
            match r {
                Ok(v) => exists|i: int|
                    0 <= i < old(self)@.len() && (#[trigger] old(self)@[i]).0.contains(
                        address.0 as int,
                    ) && *v == old(self)@[i].1 && final(self)@ == old(self)@.update(
                        i,
                        (old(self)@[i].0, *final(v)),
                    ),
                Err(e) => e.address == address && !old(self).covered().contains(address.0 as int)
                    && final(self)@ == old(self)@,
            },
    {
        match self.find(address) {
            Some(i) => Ok(&mut self.entries[i].1),
            None => Err(NotFound { address }),
        }
    }

    /// Takes out the `i`-th stored range with its payload.
    pub fn remove_at(&mut self, i: usize) -> (e: (Interval, V))
        requires
            old(self).wf(),
            i < old(self)@.len(),
        ensures
            final(self).wf(),
            e == old(self)@[i as int],
            final(self)@ == old(self)@.remove(i as int),
    {
        let e = self.entries.remove(i);
        proof {
            let s = old(self)@;
            let t = s.remove(i as int);
            assert forall|a: int, b: int| 0 <= a < b < t.len() implies (#[trigger] t[a]).0.end.0 <= (
            #[trigger] t[b]).0.start.0 by {
                let a0 = if a < i { a } else { a + 1 };
                let b0 = if b < i { b } else { b + 1 };
                assert(t[a] == s[a0]);
                assert(t[b] == s[b0]);
            }
            assert forall|a: int| 0 <= a < t.len() implies !(#[trigger] t[a]).0.is_empty() by {
                let a0 = if a < i { a } else { a + 1 };
                assert(t[a] == s[a0]);
            }
        }
        e
    }

    /// Takes out every stored range that shares an address with `interval`
    /// and returns them in address order. What is left shares no address
    /// with `interval`.
    pub fn remove_overlapping(&mut self, interval: Interval) -> (removed: Vec<(Interval, V)>)
        requires
            old(self).wf(),
        ensures
            final(self).wf(),
            interval.is_empty() ==> removed@.len() == 0 && final(self)@ == old(self)@,
            !interval.is_empty() ==> {
                let lo = ending_by(old(self)@, interval.start.0 as int);
                let hi = starting_below(old(self)@, interval.end.0 as int);
                &&& 0 <= lo <= hi <= old(self)@.len()
                &&& removed@ == old(self)@.subrange(lo, hi)
                &&& final(self)@ == old(self)@.subrange(0, lo) + old(self)@.subrange(
                    hi,
                    old(self)@.len() as int,
                )
            },
            forall|i: int| 0 <= i < removed@.len() ==> (#[trigger] removed@[i]).0.intersects(interval),
            !any_intersects(final(self)@, interval),
    {
        let ghost s = self.entries@;
        if interval.holds_nothing() {
            assert(!any_intersects(s, interval));
            return Vec::new();
        }
        let mut lo: usize = 0;
        while lo < self.entries.len() && self.entries[lo].0.end.0 <= interval.start.0
            invariant
                lo <= s.len(),
                self.entries@ == s,
                forall|k: int| 0 <= k < lo ==> (#[trigger] s[k]).0.end.0 <= interval.start.0,
            decreases s.len() - lo,
        {
            lo += 1;
        }
        let mut hi: usize = lo;
        while hi < self.entries.len() && self.entries[hi].0.start.0 < interval.end.0
            invariant
                lo <= hi <= s.len(),
                self.entries@ == s,
                forall|k: int| lo <= k < hi ==> (#[trigger] s[k]).0.start.0 < interval.end.0,
            decreases s.len() - hi,
        {
            hi += 1;
        }
        proof {
            ending_by_bounds(s, interval.start.0 as int);
            starting_below_bounds(s, interval.end.0 as int);
            intersecting_run(s, interval);
            let l = ending_by(s, interval.start.0 as int);
            let h = starting_below(s, interval.end.0 as int);
            if l < lo {
                assert(s[l].0.end.0 <= interval.start.0);
            }
            if lo < l {
                assert(s[lo as int].0.end.0 <= interval.start.0);
            }
            assert(lo == l);
            if h < hi {
                assert(s[h].0.start.0 < interval.end.0);
            }
            if hi < h {
                assert(s[hi as int].0.start.0 < interval.end.0);
            }
            assert(hi == h);
        }
        let mut removed = self.entries.split_off(lo);
        let mut rest = removed.split_off(hi - lo);
        self.entries.append(&mut rest);
        proof {
            assert(removed@ =~= s.subrange(lo as int, hi as int));
            let t = s.subrange(0, lo as int) + s.subrange(hi as int, s.len() as int);
            assert(self.entries@ =~= t);
            assert forall|a: int| 0 <= a < t.len() implies !(#[trigger] t[a]).0.is_empty() && !t[a].0.intersects(
                interval,
            ) by {
                let a0 = if a < lo { a } else { a - lo + hi };
                assert(t[a] == s[a0]);
            }
            assert forall|a: int, b: int| 0 <= a < b < t.len() implies (#[trigger] t[a]).0.end.0 <= (
            #[trigger] t[b]).0.start.0 by {
                let a0 = if a < lo { a } else { a - lo + hi };
                let b0 = if b < lo { b } else { b - lo + hi };
                assert(t[a] == s[a0]);
                assert(t[b] == s[b0]);
            }
            assert forall|i: int| 0 <= i < removed@.len() implies (#[trigger] removed@[i]).0.intersects(
                interval,
            ) by {
                assert(removed@[i] == s[lo + i]);
            }
        }
        removed
    }

    /// Puts `pieces` between the first `k` stored ranges and the rest. The
    /// pieces are in address order and lie in the gap between the two.
    pub fn insert_pieces(&mut self, k: usize, pieces: Vec<(Interval, V)>)
        requires
            old(self).wf(),
            k <= old(self)@.len(),
            ordered(
                old(self)@.subrange(0, k as int) + pieces@ + old(self)@.subrange(
                    k as int,
                    old(self)@.len() as int,
                ),
            ),
        ensures
            final(self).wf(),
            final(self)@ == old(self)@.subrange(0, k as int) + pieces@ + old(self)@.subrange(
                k as int,
                old(self)@.len() as int,
            ),
    {
        let ghost s = self.entries@;
        let mut pieces = pieces;
        let ghost p = pieces@;
        let mut tail = self.entries.split_off(k);
        self.entries.append(&mut pieces);
        self.entries.append(&mut tail);
        assert(self.entries@ =~= s.subrange(0, k as int) + p + s.subrange(k as int, s.len() as int));
    }

    /// Takes out every stored range that shares an address with `interval`,
    /// puts `payload` under `interval` in their place, and returns what was
    /// taken out.
    pub fn overwrite(&mut self, interval: Interval, payload: V) -> (removed: Vec<(Interval, V)>)
        requires
            old(self).wf(),
            !interval.is_empty(),
        ensures
            final(self).wf(),
            final(self)@ == overwritten(old(self)@, interval, payload),
            removed@ == old(self)@.subrange(
                ending_by(old(self)@, interval.start.0 as int),
                starting_below(old(self)@, interval.end.0 as int),
            ),
    {
        let ghost s = self.entries@;
        let removed = self.remove_overlapping(interval);
        let ghost t = self.entries@;
        proof {
            intersecting_run(s, interval);
            ending_by_bounds(s, interval.start.0 as int);
            starting_below_bounds(s, interval.end.0 as int);
            ending_by_bounds(t, interval.start.0 as int);
            let lo = ending_by(s, interval.start.0 as int);
            let hi = starting_below(s, interval.end.0 as int);
            let k = ending_by(t, interval.start.0 as int);
            if k < lo {
                assert(t[k] == s[k]);
            }
            if k > lo {
                assert(t[lo] == s[hi]);
                assert(!s[hi].0.is_empty());
            }
            assert(k == lo);
            assert(t.insert(lo, (interval, payload)) =~= overwritten(s, interval, payload));
        }
        let r = self.insert_strict(interval, payload);
        removed
    }
}

} // verus!

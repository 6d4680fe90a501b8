//! Addresses of the target's virtual address space and half-open ranges of them.
use vstd::prelude::*;

verus! {

/// A location in the target's virtual address space.
#[derive(Clone, Copy, Debug, PartialEq, Eq, Structural, Hash, PartialOrd, Ord)]
pub struct Address(pub u64);

impl Address {
    /// The address as a mathematical integer.
    pub open spec fn as_int(self) -> int {
        self.0 as int
    }

    pub fn new(value: u64) -> (a: Address)
        ensures
            a.0 == value,
    {
        Address(value)
    }

    /// The raw value of the address.
    pub fn value(&self) -> (v: u64)
        ensures
            v == self.0,
    {
        self.0
    }
}

impl From<u64> for Address {
    fn from(value: u64) -> (a: Address) {
        Address(value)
    }
}

impl vstd::std_specs::convert::FromSpecImpl<u64> for Address {
    open spec fn obeys_from_spec() -> bool {
        true
    }

    open spec fn from_spec(value: u64) -> Address {
        Address(value)
    }
}

/// A half-open range `[start, end)` of addresses. A range whose `end` does
/// not lie above its `start` holds no address.
#[derive(Clone, Copy, Debug, PartialEq, Eq, Structural, Hash)]
pub struct Interval {
    pub start: Address,
    pub end: Address,
}

impl Interval {
    /// Whether the range holds the address `a`.
    pub open spec fn contains(self, a: int) -> bool {
        self.start.0 <= a < self.end.0
    }

    /// The addresses of the range, as a set.
    pub open spec fn points(self) -> Set<int> {
        Set::new(|a: int| self.contains(a))
    }

    /// Whether the range holds no address.
    pub open spec fn is_empty(self) -> bool {
        self.start.0 >= self.end.0
    }

    /// Whether two ranges share an address.
    pub open spec fn intersects(self, other: Interval) -> bool {
        self.start.0 < other.end.0 && other.start.0 < self.end.0 && !self.is_empty()
            && !other.is_empty()
    }

    pub fn new(start: Address, end: Address) -> (r: Interval)
        ensures
            r.start == start,
            r.end == end,
    {
        Interval { start, end }
    }

    /// The range of `len` addresses from `start` on, cut off at the top of the
    /// address space.
    pub fn from_len(start: Address, len: usize) -> (r: Interval)
        ensures
            r.start == start,
            r.end.0 == if start.0 + len <= u64::MAX { (start.0 + len) as u64 } else { u64::MAX },
    {
        let room: u64 = u64::MAX - start.0;
        let end: u64 = if len as u64 <= room && len <= usize::MAX {
            start.0 + len as u64
        } else {
            u64::MAX
        };
        Interval { start, end: Address(end) }
    }

    pub fn has_point(&self, a: Address) -> (b: bool)
        ensures
            b == self.contains(a.0 as int),
    {
        self.start.0 <= a.0 && a.0 < self.end.0
    }

    pub fn holds_nothing(&self) -> (b: bool)
        ensures
            b == self.is_empty(),
    {
        self.start.0 >= self.end.0
    }

    pub fn overlaps(&self, other: &Interval) -> (b: bool)
        ensures
            b == self.intersects(*other),
    {
        self.start.0 < other.end.0 && other.start.0 < self.end.0 && self.start.0 < self.end.0
            && other.start.0 < other.end.0
    }

    /// Two ranges intersect exactly when some address lies in both.
    pub proof fn intersects_is_shared_point(self, other: Interval)
        ensures
            self.intersects(other) <==> exists|a: int| self.contains(a) && other.contains(a),
    {
        if self.intersects(other) {
            let a: int = if self.start.0 >= other.start.0 {
                self.start.0 as int
            } else {
                other.start.0 as int
            };
            assert(self.contains(a) && other.contains(a));
        }
    }
}

} // verus!

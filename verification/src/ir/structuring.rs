//! What the structuring engine finds out about a graph before it builds
//! statements: which blocks head a loop and of what shape the loop is, and
//! where the two sides of a condition meet again.
use crate::address::Address;
use crate::ir::basic_block::{BlockView, NextBlock};
use crate::ir::expression::{negate, negated, simplified, simplify, Expression};
use crate::ir::graph::{
    closed_graph, compute_dominators, compute_reach, dominates, dominator_matrix, edges, reach_matrix,
    reachable, rows,
};
use crate::ir::high_function::{slot_of, slot_of_bounds, FunctionView, HighFunction};
use vstd::prelude::*;

verus! {

/// Whether the edge from `s` to `h` is a back edge: its target dominates
/// its source.
pub open spec fn back_edge(f: FunctionView, s: int, h: int) -> bool {
    &&& 0 <= s < f.blocks.len()
    &&& 0 <= h < f.blocks.len()
    &&& f.successors[s].contains(h as usize)
    &&& dominates(f.successors, f.entry_slot as int, h, s)
}

/// The first block, from `from` on, from which a back edge leads to `h`;
/// the number of blocks if there is none.
pub open spec fn first_latch(f: FunctionView, h: int, from: int) -> int
    decreases f.blocks.len() - from,
{
    if from < 0 || from >= f.blocks.len() {
        f.blocks.len() as int
    } else if back_edge(f, from, h) {
        from
    } else {
        first_latch(f, h, from + 1)
    }
}

/// Whether `h` heads a loop: some back edge leads to it.
pub open spec fn is_header(f: FunctionView, h: int) -> bool {
    first_latch(f, h, 0) < f.blocks.len()
}

/// Whether `x` lies in the loop that `h` heads: `h` dominates it, and it
/// leads back to `h`.
pub open spec fn in_loop(f: FunctionView, h: int, x: int) -> bool {
    dominates(f.successors, f.entry_slot as int, h, x) && reachable(f.successors, x, h)
}

/// The shape of a loop.
#[derive(Debug, PartialEq, Eq)]
pub enum LoopShape {
    /// The test stands at the head: the loop runs while `condition` holds,
    /// goes on at `inside` and is left for `exit`.
    PreTest { condition: Expression, inside: usize, exit: usize },
    /// The test stands at the one block that leads back to the head: the
    /// loop runs again while `condition` holds and is left for `exit`.
    PostTest { condition: Expression, exit: usize },
    /// No test of either kind was found.
    Endless,
}

/// The shape of the loop that `h` heads, as far as the test does not stand
/// at the head.
pub open spec fn tail_shape(f: FunctionView, h: int) -> LoopShape {
    let n = f.blocks.len() as int;
    let s = first_latch(f, h, 0);
    if s < n && first_latch(f, h, s + 1) >= n && s != h {
        match f.blocks[s].next {
            NextBlock::ConditionalBranch { condition, target, fallthrough } => {
                let t = slot_of(f.blocks, target, 0);
                let e = slot_of(f.blocks, fallthrough, 0);
                if t == h && e < n && e != h && !in_loop(f, h, e) {
                    LoopShape::PostTest { condition: simplified(condition), exit: e as usize }
                } else if e == h && t < n && t != h && !in_loop(f, h, t) {
                    LoopShape::PostTest {
                        condition: negated(simplified(condition)),
                        exit: t as usize,
                    }
                } else {
                    LoopShape::Endless
                }
            },
            _ => LoopShape::Endless,
        }
    } else {
        LoopShape::Endless
    }
}

/// The shape of the loop that `h` heads. The test stands at the head where
/// the head ends in a condition of which one side stays in the loop and the
/// other leaves it.
pub open spec fn loop_shape(f: FunctionView, h: int) -> LoopShape {
    let n = f.blocks.len() as int;
    match f.blocks[h].next {
        NextBlock::ConditionalBranch { condition, target, fallthrough } => {
            let t = slot_of(f.blocks, target, 0);
            let e = slot_of(f.blocks, fallthrough, 0);
            if t < n && e < n && in_loop(f, h, t) && !in_loop(f, h, e) {
                LoopShape::PreTest {
                    condition: simplified(condition),
                    inside: t as usize,
                    exit: e as usize,
                }
            } else if t < n && e < n && !in_loop(f, h, t) && in_loop(f, h, e) {
                LoopShape::PreTest {
                    condition: negated(simplified(condition)),
                    inside: e as usize,
                    exit: t as usize,
                }
            } else {
                tail_shape(f, h)
            }
        },
        _ => tail_shape(f, h),
    }
}

/// Whether both sides of the condition at `n`, which go on at `t` and `e`,
/// come to `m`, and `n` dominates `m`.
pub open spec fn joint(f: FunctionView, n: int, t: int, e: int, m: int) -> bool {
    &&& m != n
    &&& dominates(f.successors, f.entry_slot as int, n, m)
    &&& reachable(f.successors, t, m)
    &&& reachable(f.successors, e, m)
}

/// Whether every block up to `upto` to which both sides come is dominated
/// by `m`.
pub open spec fn leads_all(f: FunctionView, n: int, t: int, e: int, m: int, upto: int) -> bool
    decreases upto,
{
    if upto <= 0 {
        true
    } else {
        leads_all(f, n, t, e, m, upto - 1) && (joint(f, n, t, e, upto - 1) ==> dominates(
            f.successors,
            f.entry_slot as int,
            m,
            upto - 1,
        ))
    }
}

/// Whether `m` is where the two sides meet again: both come to it, and it
/// dominates every other block to which both come.
pub open spec fn is_merge(f: FunctionView, n: int, t: int, e: int, m: int) -> bool {
    joint(f, n, t, e, m) && leads_all(f, n, t, e, m, f.blocks.len() as int)
}

/// The first block, from `from` on, where the two sides meet again; the
/// number of blocks if there is none.
pub open spec fn merge_from(f: FunctionView, n: int, t: int, e: int, from: int) -> int
    decreases f.blocks.len() - from,
{
    if from < 0 || from >= f.blocks.len() {
        f.blocks.len() as int
    } else if is_merge(f, n, t, e, from) {
        from
    } else {
        merge_from(f, n, t, e, from + 1)
    }
}

/// Which block dominates which, and which reaches which, in the graph of
/// one function.
pub struct Analysis {
    dom: Vec<Vec<bool>>,
    reach: Vec<Vec<bool>>,
}

impl Analysis {
    /// Whether the tables are those of the graph `f`.
    pub closed spec fn fits(&self, f: FunctionView) -> bool {
        &&& rows(self.dom@) == dominator_matrix(f.successors, f.entry_slot as int)
        &&& rows(self.reach@) == reach_matrix(f.successors)
        &&& f.successors.len() == f.blocks.len()
        &&& f.entry_slot < f.blocks.len()
    }

    /// Computes the tables of `f`.
    pub fn of(f: &HighFunction) -> (a: Analysis)
        requires
            f.wf(),
        ensures
            a.fits(f@),
    {
        proof {
            crate::ir::high_function::linked_is_closed(f@.blocks);
            slot_of_bounds(f@.blocks, f@.entry, 0);
        }
        let g = f.edges();
        let dom = compute_dominators(g, f.entry_slot());
        let reach = compute_reach(g);
        Analysis { dom, reach }
    }

    /// Whether `d` dominates `n`.
    pub fn dominated_by(&self, f: &HighFunction, d: usize, n: usize) -> (b: bool)
        requires
            self.fits(f@),
            d < f@.blocks.len(),
            n < f@.blocks.len(),
        ensures
            b == dominates(f@.successors, f@.entry_slot as int, d as int, n as int),
    {
        proof {
            let want = dominator_matrix(f@.successors, f@.entry_slot as int);
            assert(want.len() == f@.successors.len());
            assert(rows(self.dom@).len() == self.dom@.len());
            assert(rows(self.dom@)[d as int] == self.dom@[d as int]@);
            assert(want[d as int].len() == f@.successors.len());
        }
        self.dom[d][n]
    }

    /// Whether `a` reaches `b`.
    pub fn reaches(&self, f: &HighFunction, a: usize, b: usize) -> (r: bool)
        requires
            self.fits(f@),
            a < f@.blocks.len(),
            b < f@.blocks.len(),
        ensures
            r == reachable(f@.successors, a as int, b as int),
    {
        proof {
            let want = reach_matrix(f@.successors);
            assert(want.len() == f@.successors.len());
            assert(rows(self.reach@).len() == self.reach@.len());
            assert(rows(self.reach@)[a as int] == self.reach@[a as int]@);
            assert(want[a as int].len() == f@.successors.len());
        }
        self.reach[a][b]
    }

    /// Whether `x` lies in the loop that `h` heads.
    pub fn lies_in_loop(&self, f: &HighFunction, h: usize, x: usize) -> (b: bool)
        requires
            self.fits(f@),
            h < f@.blocks.len(),
            x < f@.blocks.len(),
        ensures
            b == in_loop(f@, h as int, x as int),
    {
        self.dominated_by(f, h, x) && self.reaches(f, x, h)
    }

    /// The first block, from `from` on, from which a back edge leads to `h`.
    pub fn latch_from(&self, f: &HighFunction, h: usize, from: usize) -> (s: usize)
        requires
            self.fits(f@),
            f.wf(),
            h < f@.blocks.len(),
        ensures
            s == first_latch(f@, h as int, from as int),
            s <= f@.blocks.len(),
    {
        let n = f.len();
        let mut s: usize = from;
        while s < n
            invariant
                n == f@.blocks.len(),
                self.fits(f@),
                f.wf(),
                h < n,
                from <= s,
                first_latch(f@, h as int, s as int) == first_latch(f@, h as int, from as int),
            decreases n - s,
        {
            let leads = list_has(f.successors(s), h);
            if leads && self.dominated_by(f, h, s) {
                return s;
            }
            s += 1;
        }
        n
    }

    fn tail_shape_of(&self, f: &HighFunction, h: usize) -> (shape: LoopShape)
        requires
            self.fits(f@),
            f.wf(),
            h < f@.blocks.len(),
        ensures
            shape == tail_shape(f@, h as int),
            shape matches LoopShape::PostTest { exit, .. } ==> exit < f@.blocks.len(),
            !(shape is PreTest),
    {
        let n = f.len();
        let s = self.latch_from(f, h, 0);
        if s >= n || s == h {
            return LoopShape::Endless;
        }
        let again = self.latch_from(f, h, s + 1);
        if again < n {
            return LoopShape::Endless;
        }
        match &f.block(s).next {
            NextBlock::ConditionalBranch { condition, target, fallthrough } => {
                let t = match f.slot_by_address(*target) {
                    Some(t) => t,
                    None => n,
                };
                let e = match f.slot_by_address(*fallthrough) {
                    Some(e) => e,
                    None => n,
                };
                if t == h && e < n && e != h && !self.lies_in_loop(f, h, e) {
                    LoopShape::PostTest { condition: simplify(condition), exit: e }
                } else if e == h && t < n && t != h && !self.lies_in_loop(f, h, t) {
                    LoopShape::PostTest { condition: negate(simplify(condition)), exit: t }
                } else {
                    LoopShape::Endless
                }
            },
            _ => LoopShape::Endless,
        }
    }

    /// The shape of the loop that `h` heads.
    pub fn shape_of(&self, f: &HighFunction, h: usize) -> (shape: LoopShape)
        requires
            self.fits(f@),
            f.wf(),
            h < f@.blocks.len(),
        ensures
            shape == loop_shape(f@, h as int),
            shape matches LoopShape::PreTest { inside, exit, .. } ==> inside < f@.blocks.len()
                && exit < f@.blocks.len(),
            shape matches LoopShape::PostTest { exit, .. } ==> exit < f@.blocks.len(),
    {
        let n = f.len();
        match &f.block(h).next {
            NextBlock::ConditionalBranch { condition, target, fallthrough } => {
                let t = match f.slot_by_address(*target) {
                    Some(t) => t,
                    None => n,
                };
                let e = match f.slot_by_address(*fallthrough) {
                    Some(e) => e,
                    None => n,
                };
                if t < n && e < n {
                    let t_in = self.lies_in_loop(f, h, t);
                    let e_in = self.lies_in_loop(f, h, e);
                    if t_in && !e_in {
                        return LoopShape::PreTest {
                            condition: simplify(condition),
                            inside: t,
                            exit: e,
                        };
                    }
                    if !t_in && e_in {
                        return LoopShape::PreTest {
                            condition: negate(simplify(condition)),
                            inside: e,
                            exit: t,
                        };
                    }
                }
                self.tail_shape_of(f, h)
            },
            _ => self.tail_shape_of(f, h),
        }
    }

    fn is_joint(&self, f: &HighFunction, n: usize, t: usize, e: usize, m: usize) -> (b: bool)
        requires
            self.fits(f@),
            n < f@.blocks.len(),
            t < f@.blocks.len(),
            e < f@.blocks.len(),
            m < f@.blocks.len(),
        ensures
            b == joint(f@, n as int, t as int, e as int, m as int),
    {
        m != n && self.dominated_by(f, n, m) && self.reaches(f, t, m) && self.reaches(f, e, m)
    }

    /// The block where the two sides of the condition at `n` meet again;
    /// the number of blocks if there is none.
    pub fn merge_of(&self, f: &HighFunction, n: usize, t: usize, e: usize) -> (m: usize)
        requires
            self.fits(f@),
            n < f@.blocks.len(),
            t < f@.blocks.len(),
            e < f@.blocks.len(),
        ensures
            m == merge_from(f@, n as int, t as int, e as int, 0),
            m <= f@.blocks.len(),
    {
        let count = f.len();
        let mut m: usize = 0;
        while m < count
            invariant
                count == f@.blocks.len(),
                self.fits(f@),
                n < count,
                t < count,
                e < count,
                merge_from(f@, n as int, t as int, e as int, m as int) == merge_from(
                    f@,
                    n as int,
                    t as int,
                    e as int,
                    0,
                ),
            decreases count - m,
        {
            if self.is_joint(f, n, t, e, m) {
                let mut all = true;
                let mut k: usize = 0;
                while k < count
                    invariant
                        count == f@.blocks.len(),
                        self.fits(f@),
                        n < count,
                        t < count,
                        e < count,
                        m < count,
                        k <= count,
                        all == leads_all(f@, n as int, t as int, e as int, m as int, k as int),
                    decreases count - k,
                {
                    if self.is_joint(f, n, t, e, k) && !self.dominated_by(f, m, k) {
                        all = false;
                    }
                    k += 1;
                }
                if all {
                    return m;
                }
            }
            m += 1;
        }
        count
    }
}

/// Whether `x` stands in `list`.
pub fn list_has(list: &Vec<usize>, x: usize) -> (b: bool)
    ensures
        b == list@.contains(x),
{
    let mut i: usize = 0;
    while i < list.len()
        invariant
            i <= list@.len(),
            forall|k: int| 0 <= k < i ==> list@[k] != x,
        decreases list@.len() - i,
    {
        if list[i] == x {
            return true;
        }
        i += 1;
    }
    false
}

} // verus!

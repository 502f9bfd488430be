//! Layout's vocabulary and its bookkeeping between ticks: the style
//! enums, which nodes are roots, which roots are dirty, and what a pass
//! reports. The pass itself, over taffy, belongs to the program around
//! this library. A node is named by its number.
use vstd::prelude::*;

verus! {

#[derive(Debug, Clone, Copy, PartialEq, Eq, Structural)]
pub enum Display {
    Flex,
    Block,
    /// The node and its subtree take no space and get a zero-size box.
    Hidden,
}

impl Default for Display {
    fn default() -> (d: Self)
        ensures
            d == Display::Flex,
    {
        Display::Flex
    }
}

#[derive(Debug, Clone, Copy, PartialEq, Eq, Structural)]
pub enum Direction {
    Row,
    Column,
}

impl Default for Direction {
    fn default() -> (d: Self)
        ensures
            d == Direction::Row,
    {
        Direction::Row
    }
}

#[derive(Debug, Clone, Copy, PartialEq, Eq, Structural)]
pub enum Position {
    Relative,
    /// Taken out of the parent's flow and placed by `inset`; sized only by
    /// its own style.
    Absolute,
}

impl Default for Position {
    fn default() -> (p: Self)
        ensures
            p == Position::Relative,
    {
        Position::Relative
    }
}

#[derive(Debug, Clone, Copy, PartialEq, Eq, Structural)]
pub enum Align {
    Start,
    Center,
    End,
    Stretch,
}

impl Default for Align {
    fn default() -> (a: Self)
        ensures
            a == Align::Stretch,
    {
        Align::Stretch
    }
}

#[derive(Debug, Clone, Copy, PartialEq, Eq, Structural)]
pub enum Justify {
    Start,
    Center,
    End,
    SpaceBetween,
    SpaceAround,
    SpaceEvenly,
}

impl Default for Justify {
    fn default() -> (j: Self)
        ensures
            j == Justify::Start,
    {
        Justify::Start
    }
}

#[derive(Debug, Clone, Copy, PartialEq, Eq, Structural)]
pub enum Wrap {
    No,
    Yes,
}

impl Default for Wrap {
    fn default() -> (w: Self)
        ensures
            w == Wrap::No,
    {
        Wrap::No
    }
}

/// Marks the top of one independently laid-out tree. Only the subtree
/// under a true root is laid out, with the root's box at the origin of
/// its own coordinates, sized by its own style. A node under no root keeps
/// its default layout. A root's subtree must not contain another root.
#[derive(Debug, Clone, Copy, PartialEq, Eq, Structural)]
pub struct LayoutRoot(pub bool);

impl Default for LayoutRoot {
    fn default() -> (r: Self)
        ensures
            r == LayoutRoot(false),
    {
        LayoutRoot(false)
    }
}

/// Layout has run for this tick. Sent once per tick, whatever happened.
/// `roots` is the roots recomputed this tick, in the order they were
/// marked dirty; empty when none was.
#[derive(Debug, PartialEq, Eq)]
pub struct LayoutDone {
    pub roots: Vec<u64>,
}

impl LayoutDone {
    /// Whether any root was laid out this tick.
    pub fn recomputed(&self) -> (r: bool)
        ensures
            r == (self.roots@.len() > 0),
    {
        self.roots.len() > 0
    }
}

/// The roots with a dirty subtree, in the order they were marked, each
/// once.
pub struct DirtyRoots {
    roots: Vec<u64>,
}

impl DirtyRoots {
    /// The roots marked, in marking order.
    pub closed spec fn marked(self) -> Seq<u64> {
        self.roots@
    }

    /// No root marked twice.
    pub closed spec fn wf(self) -> bool {
        self.roots@.no_duplicates()
    }

    /// Nothing marked.
    pub fn new() -> (d: DirtyRoots)
        ensures
            d.wf(),
            d.marked() == Seq::<u64>::empty(),
    {
        DirtyRoots { roots: Vec::new() }
    }

    /// Mark `root` dirty, at the end, unless it already is.
    pub fn mark(&mut self, root: u64)
        requires
            old(self).wf(),
        ensures
            final(self).wf(),
            final(self).marked() == if old(self).marked().contains(root) {
                old(self).marked()
            } else {
                old(self).marked().push(root)
            },
    {
        let mut i: usize = 0;
        while i < self.roots.len()
            invariant
                i <= self.roots@.len(),
                old(self).wf(),
                self.roots@ == old(self).roots@,
                forall|j: int| 0 <= j < i ==> self.roots@[j] != root,
            decreases self.roots@.len() - i,
        {
            if self.roots[i] == root {
                assert(self.roots@[i as int] == root);
                return;
            }
            i = i + 1;
        }
        self.roots.push(root);
    }

    /// The roots marked, in marking order, for the caller to say of each
    /// whether it is still live and still a root.
    pub fn roots(&self) -> (r: &[u64])
        ensures
            r@ == self.marked(),
    {
        self.roots.as_slice()
    }

    /// Take the marked roots that `still` keeps, in marking order,
    /// leaving nothing marked: `still[i]` says whether the `i`th marked
    /// root is still live and still a root.
    pub fn take_dirty_roots(&mut self, still: &[bool]) -> (r: Vec<u64>)
        requires
            still@.len() == old(self).marked().len(),
        ensures
            final(self).wf(),
            final(self).marked() == Seq::<u64>::empty(),
            r@ == kept(old(self).marked(), still@),
    {
        let mut taken: Vec<u64> = Vec::new();
        std::mem::swap(&mut taken, &mut self.roots);
        let mut out: Vec<u64> = Vec::new();
        let mut i: usize = 0;
        while i < taken.len()
            invariant
                i <= taken@.len(),
                taken@ == old(self).marked(),
                still@.len() == taken@.len(),
                self.roots@ == Seq::<u64>::empty(),
                out@ == kept(taken@.take(i as int), still@.take(i as int)),
            decreases taken@.len() - i,
        {
            proof {
                assert(taken@.take(i + 1).drop_last() =~= taken@.take(i as int));
                assert(still@.take(i + 1).drop_last() =~= still@.take(i as int));
            }
            if still[i] {
                out.push(taken[i]);
            }
            i = i + 1;
        }
        assert(taken@.take(taken@.len() as int) =~= taken@);
        assert(still@.take(still@.len() as int) =~= still@);
        out
    }
}

/// The entries of `roots` whose flag in `keep` is set, in order.
pub open spec fn kept(roots: Seq<u64>, keep: Seq<bool>) -> Seq<u64>
    decreases roots.len(),
{
    if roots.len() == 0 || keep.len() == 0 {
        Seq::empty()
    } else {
        let rest = kept(roots.drop_last(), keep.drop_last());
        if keep.last() {
            rest.push(roots.last())
        } else {
            rest
        }
    }
}

/// A root is laid out at most once a tick: what a take returns names no
/// root twice, and only roots that were marked.
pub proof fn law_taken_roots_are_marked_once(roots: Seq<u64>, keep: Seq<bool>)
    requires
        roots.no_duplicates(),
        keep.len() == roots.len(),
    ensures
        kept(roots, keep).no_duplicates(),
        forall|r: u64| kept(roots, keep).contains(r) ==> roots.contains(r),
    decreases roots.len(),
{
    if roots.len() > 0 {
        let front = roots.drop_last();
        assert forall|i: int, j: int| 0 <= i < j < front.len() implies front[i] != front[j] by {
            assert(front[i] == roots[i] && front[j] == roots[j]);
        }
        law_taken_roots_are_marked_once(front, keep.drop_last());
        assert forall|r: u64| front.contains(r) implies roots.contains(r) by {
            let k = choose|k: int| 0 <= k < front.len() && front[k] == r;
            assert(roots[k] == r);
        }
        if keep.last() {
            let rest = kept(front, keep.drop_last());
            assert(!rest.contains(roots.last())) by {
                if rest.contains(roots.last()) {
                    assert(front.contains(roots.last()));
                    let k = choose|k: int| 0 <= k < front.len() && front[k] == roots.last();
                    assert(roots[k] == front[k]);
                    assert(roots[k] == roots[roots.len() - 1]);
                }
            }
            assert(roots.contains(roots.last())) by {
                assert(roots[roots.len() - 1] == roots.last());
            }
            assert forall|i: int, j: int|
                0 <= i < j < rest.push(roots.last()).len() implies rest.push(roots.last())[i]
                != rest.push(roots.last())[j] by {
                if j == rest.len() {
                    assert(rest.contains(rest[i]));
                }
            }
            assert forall|r: u64| rest.push(roots.last()).contains(r) implies roots.contains(r) by {
                let k = choose|k: int| 0 <= k < rest.push(roots.last()).len() && rest.push(roots.last())[k] == r;
                if k < rest.len() {
                    assert(rest[k] == r);
                    assert(rest.contains(r));
                }
            }
        }
    }
}

} // verus!

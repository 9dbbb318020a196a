//! The interactive path navigator: a synchronous, total state machine that
//! walks one function's control-flow graph node by node, keeping an undoable
//! history and a selected-edge index. Every transition is a pure state
//! transformation; invalid requests (following a nonexistent edge, stepping
//! back at the entry, jumping out of range) are silent no-ops, never errors.
//!
//! Policy: the history holds the visited path including the current node, so
//! it is never empty and the entry node is always retained — stepping back
//! from the entry is a no-op.
use vstd::prelude::*;

use crate::explore::{ExplorerBlock, ExplorerData, ExplorerEdge, ExplorerFunction};

verus! {

/// The navigator state over one loaded data set.
pub struct Navigator {
    pub data: ExplorerData,
    pub current_fn: usize,
    pub current_block: usize,
    pub selected_edge: usize,
    pub path: Vec<usize>,
}

/// Navigable data: at least one function, every function with at least one
/// block, entry block 0, and every edge aimed inside its function.
pub open spec fn data_wf(d: ExplorerData) -> bool {
    &&& d.functions@.len() > 0
    &&& forall |f: int|
        0 <= f < d.functions@.len() ==> (#[trigger] d.functions@[f]).blocks@.len() > 0
            && d.functions@[f].entry_block == 0
    &&& forall |f: int, b: int, e: int|
        0 <= f < d.functions@.len() && 0 <= b < d.functions@[f].blocks@.len() && 0 <= e
            < d.functions@[f].blocks@[b].terminator.edges@.len()
            ==> (#[trigger] d.functions@[f].blocks@[b].terminator.edges@[e]).target
            < d.functions@[f].blocks@.len()
}

/// The function the navigator currently walks.
pub open spec fn spec_cur_fn(nav: Navigator) -> ExplorerFunction {
    nav.data.functions@[nav.current_fn as int]
}

/// The outgoing edges of the current block.
pub open spec fn spec_cur_edges(nav: Navigator) -> Seq<ExplorerEdge> {
    spec_cur_fn(nav).blocks@[nav.current_block as int].terminator.edges@
}

/// A well-formed navigator state: the data is navigable, the indices are in
/// range, the path is never empty, ends at the current block and stays
/// inside the current function, and the selected edge is in range of the
/// current block's edges (or zero).
pub open spec fn nav_wf(nav: Navigator) -> bool {
    &&& data_wf(nav.data)
    &&& nav.current_fn < nav.data.functions@.len()
    &&& nav.current_block < spec_cur_fn(nav).blocks@.len()
    &&& nav.path@.len() >= 1
    &&& nav.path@.last() == nav.current_block
    &&& forall |i: int|
        0 <= i < nav.path@.len() ==> #[trigger] nav.path@[i] < spec_cur_fn(nav).blocks@.len()
    &&& (nav.selected_edge == 0 || nav.selected_edge < spec_cur_edges(nav).len())
}

impl Navigator {
    /// Open a navigator on the first function's entry node: the history
    /// holds just the entry, with edge 0 selected.
    pub fn new(data: ExplorerData) -> (nav: Navigator)
        requires
            data_wf(data),
        ensures
            nav_wf(nav),
            nav.data == data,
            nav.current_fn == 0,
            nav.current_block == 0,
            nav.selected_edge == 0,
            nav.path@ == seq![0usize],
    {
        let mut path: Vec<usize> = Vec::new();
        path.push(0);
        proof {
            assert(path@ =~= seq![0usize]);
        }
        Navigator { data, current_fn: 0, current_block: 0, selected_edge: 0, path }
    }

    /// The function the navigator currently walks.
    pub fn current_function(&self) -> (r: &ExplorerFunction)
        requires
            nav_wf(*self),
        ensures
            *r == spec_cur_fn(*self),
    {
        &self.data.functions[self.current_fn]
    }

    /// The block the navigator currently shows.
    pub fn current_block_data(&self) -> (r: &ExplorerBlock)
        requires
            nav_wf(*self),
        ensures
            *r == spec_cur_fn(*self).blocks@[self.current_block as int],
    {
        &self.data.functions[self.current_fn].blocks[self.current_block]
    }

    /// The outgoing edges of the current block.
    pub fn edges(&self) -> (r: &Vec<ExplorerEdge>)
        requires
            nav_wf(*self),
        ensures
            r@ == spec_cur_edges(*self),
    {
        &self.data.functions[self.current_fn].blocks[self.current_block].terminator.edges
    }

    /// Follow the selected edge: push its target onto the history and make
    /// it current, resetting the edge selection. A no-op when the current
    /// block has no edge at the selected index.
    pub fn follow_edge(&mut self)
        requires
            nav_wf(*old(self)),
        ensures
            nav_wf(*final(self)),
            final(self).data == old(self).data,
            final(self).current_fn == old(self).current_fn,
            old(self).selected_edge < spec_cur_edges(*old(self)).len() ==> {
                &&& final(self).current_block == spec_cur_edges(*old(self))[old(self).selected_edge as int].target
                &&& final(self).path@ == old(self).path@.push(final(self).current_block)
                &&& final(self).selected_edge == 0
            },
            old(self).selected_edge >= spec_cur_edges(*old(self)).len() ==> *final(self) == *old(
                self,
            ),
    {
        let nedges =
            self.data.functions[self.current_fn].blocks[self.current_block].terminator.edges.len();
        if self.selected_edge < nedges {
            let target =
                self.data.functions[self.current_fn].blocks[self.current_block].terminator.edges[self.selected_edge].target;
            self.current_block = target;
            self.path.push(target);
            self.selected_edge = 0;
        }
    }

    /// Step back: pop the most recent history entry and make the one before
    /// it current, resetting the edge selection. A no-op at the entry — the
    /// history always retains the entry node.
    pub fn go_back(&mut self)
        requires
            nav_wf(*old(self)),
        ensures
            nav_wf(*final(self)),
            final(self).data == old(self).data,
            final(self).current_fn == old(self).current_fn,
            old(self).path@.len() > 1 ==> {
                &&& final(self).path@ == old(self).path@.drop_last()
                &&& final(self).current_block == old(self).path@[old(self).path@.len() - 2]
                &&& final(self).selected_edge == 0
            },
            old(self).path@.len() <= 1 ==> *final(self) == *old(self),
    {
        if self.path.len() > 1 {
            self.path.pop();
            self.current_block = self.path[self.path.len() - 1];
            self.selected_edge = 0;
        }
    }

    /// Advance the edge selection cyclically. A no-op on a block with no
    /// outgoing edges.
    pub fn select_next_edge(&mut self)
        requires
            nav_wf(*old(self)),
        ensures
            nav_wf(*final(self)),
            final(self).data == old(self).data,
            final(self).current_fn == old(self).current_fn,
            final(self).current_block == old(self).current_block,
            final(self).path@ == old(self).path@,
            spec_cur_edges(*old(self)).len() > 0 ==> final(self).selected_edge == (old(
                self,
            ).selected_edge + 1) % (spec_cur_edges(*old(self)).len() as int),
            spec_cur_edges(*old(self)).len() == 0 ==> final(self).selected_edge == old(
                self,
            ).selected_edge,
    {
        let len =
            self.data.functions[self.current_fn].blocks[self.current_block].terminator.edges.len();
        if len > 0 {
            self.selected_edge = (self.selected_edge + 1) % len;
        }
    }

    /// Retreat the edge selection cyclically. A no-op on a block with no
    /// outgoing edges.
    pub fn select_prev_edge(&mut self)
        requires
            nav_wf(*old(self)),
        ensures
            nav_wf(*final(self)),
            final(self).data == old(self).data,
            final(self).current_fn == old(self).current_fn,
            final(self).current_block == old(self).current_block,
            final(self).path@ == old(self).path@,
            spec_cur_edges(*old(self)).len() > 0 ==> final(self).selected_edge == (if old(
                self,
            ).selected_edge == 0 {
                spec_cur_edges(*old(self)).len() - 1
            } else {
                old(self).selected_edge - 1
            }),
            spec_cur_edges(*old(self)).len() == 0 ==> final(self).selected_edge == old(
                self,
            ).selected_edge,
    {
        let len =
            self.data.functions[self.current_fn].blocks[self.current_block].terminator.edges.len();
        if len > 0 {
            if self.selected_edge == 0 {
                self.selected_edge = len - 1;
            } else {
                self.selected_edge = self.selected_edge - 1;
            }
        }
    }

    /// Select edge `n` directly when it is in range; otherwise a no-op, not
    /// an error.
    pub fn jump_to_edge(&mut self, n: usize)
        requires
            nav_wf(*old(self)),
        ensures
            nav_wf(*final(self)),
            final(self).data == old(self).data,
            final(self).current_fn == old(self).current_fn,
            final(self).current_block == old(self).current_block,
            final(self).path@ == old(self).path@,
            n < spec_cur_edges(*old(self)).len() ==> final(self).selected_edge == n,
            n >= spec_cur_edges(*old(self)).len() ==> final(self).selected_edge == old(
                self,
            ).selected_edge,
    {
        let len =
            self.data.functions[self.current_fn].blocks[self.current_block].terminator.edges.len();
        if n < len {
            self.selected_edge = n;
        }
    }

    /// Reset to the entry: the current block becomes the entry node and the
    /// history holds just the entry, with edge 0 selected — whatever the
    /// prior state was.
    pub fn go_to_entry(&mut self)
        requires
            data_wf(old(self).data),
            old(self).current_fn < old(self).data.functions@.len(),
        ensures
            nav_wf(*final(self)),
            final(self).data == old(self).data,
            final(self).current_fn == old(self).current_fn,
            final(self).current_block == spec_cur_fn(*old(self)).entry_block,
            final(self).path@ == seq![spec_cur_fn(*old(self)).entry_block],
            final(self).selected_edge == 0,
    {
        let entry = self.data.functions[self.current_fn].entry_block;
        self.current_block = entry;
        let mut path: Vec<usize> = Vec::new();
        path.push(entry);
        proof {
            assert(path@ =~= seq![spec_cur_fn(*old(self)).entry_block]);
        }
        self.path = path;
        self.selected_edge = 0;
    }

    /// Switch to the next function, as if freshly opened on its entry node.
    pub fn select_next_fn(&mut self)
        requires
            nav_wf(*old(self)),
        ensures
            nav_wf(*final(self)),
            final(self).data == old(self).data,
            final(self).current_fn == (old(self).current_fn + 1) % (
            old(self).data.functions@.len() as int),
            final(self).current_block == spec_cur_fn(*final(self)).entry_block,
            final(self).path@ == seq![spec_cur_fn(*final(self)).entry_block],
            final(self).selected_edge == 0,
    {
        let len = self.data.functions.len();
        self.current_fn = (self.current_fn + 1) % len;
        self.go_to_entry();
    }

    /// Switch to the previous function, as if freshly opened on its entry
    /// node.
    pub fn select_prev_fn(&mut self)
        requires
            nav_wf(*old(self)),
        ensures
            nav_wf(*final(self)),
            final(self).data == old(self).data,
            final(self).current_fn == (if old(self).current_fn == 0 {
                old(self).data.functions@.len() - 1
            } else {
                old(self).current_fn - 1
            }),
            final(self).current_block == spec_cur_fn(*final(self)).entry_block,
            final(self).path@ == seq![spec_cur_fn(*final(self)).entry_block],
            final(self).selected_edge == 0,
    {
        let len = self.data.functions.len();
        if self.current_fn == 0 {
            self.current_fn = len - 1;
        } else {
            self.current_fn = self.current_fn - 1;
        }
        self.go_to_entry();
    }
}

/// Following an edge and then stepping back restores the current node and
/// the history to their pre-follow values; only the selected-edge index is
/// reset to zero rather than restored — the inverse property of the two
/// transitions.
pub proof fn lemma_follow_then_back_restores(pre: Navigator, mid: Navigator, post: Navigator)
    requires
        nav_wf(pre),
        pre.selected_edge < spec_cur_edges(pre).len(),
        // the follow transition's effect
        mid.data == pre.data,
        mid.current_fn == pre.current_fn,
        mid.current_block == spec_cur_edges(pre)[pre.selected_edge as int].target,
        mid.path@ == pre.path@.push(mid.current_block),
        mid.selected_edge == 0,
        // the step-back transition's effect
        mid.path@.len() > 1 ==> post.path@ == mid.path@.drop_last() && post.current_block
            == mid.path@[mid.path@.len() - 2] && post.selected_edge == 0,
        mid.path@.len() <= 1 ==> post == mid,
        post.data == mid.data,
        post.current_fn == mid.current_fn,
    ensures
        post.current_block == pre.current_block,
        post.path@ == pre.path@,
        post.selected_edge == 0,
{
    assert(mid.path@.len() == pre.path@.len() + 1);
    assert(mid.path@.drop_last() =~= pre.path@);
    assert(mid.path@[mid.path@.len() - 2] == pre.path@.last());
}

} // verus!

//! The layout tree: the immutable result of one layout pass. Nodes are
//! shared by reference between passes; a node is never mutated once
//! built. Each node carries a numeric identity handle, assigned by the
//! engine that built it, which the memoization cache compares instead
//! of deep structural equality.

use vstd::prelude::*;
use std::rc::Rc;
use crate::geom::{LogicalPoint, LogicalSideOffsets, LogicalSize};

verus! {

/// Identity handle of a node that could not be given a fresh one
/// because the engine's supply ran out; such a node is never cached.
pub const ANONYMOUS_ID: u64 = u64::MAX;

/// Text payload handed to the renderer: one fitted fragment and the
/// size it was shaped at.
#[derive(Clone, Debug)]
pub struct LayoutText {
    /// A piece of the source text, roughly one line's worth.
    pub text: String,
    /// The text size of the fragment, in logical pixels.
    pub size: u64,
}

/// A positioned child of a layout node. The position is relative to the
/// parent's content-box origin; the index points back into the source
/// element's child list for hit-testing.
#[derive(Clone, Debug)]
pub struct LayoutChild {
    /// Child index of the source element this child came from.
    pub index: usize,
    pub position: LogicalPoint,
    pub layout: Rc<LayoutTreeNode>,
}

/// Relies on `Rc::clone`: the clone is a second handle to the same
/// allocation, so it holds the same node.
#[verifier::external_body]
pub fn share_node(n: &Rc<LayoutTreeNode>) -> (r: Rc<LayoutTreeNode>)
    ensures
        r == *n,
{
    Rc::clone(n)
}

/// One node of the layout tree.
#[derive(Debug)]
pub struct LayoutTreeNode {
    /// Identity handle, unique among the nodes one engine has built
    /// unless it is `ANONYMOUS_ID`.
    pub id: u64,
    /// The computed size of the node.
    pub size: LogicalSize,
    /// Margin carried for the parent's consumption; not part of `size`.
    pub margin: LogicalSideOffsets,
    /// Present only on leaf text boxes.
    pub render_text: Option<LayoutText>,
    pub children: Vec<LayoutChild>,
}

/// The first record is kept, binding for binding, in the second.
pub open spec fn map_grows(m1: Map<u64, LayoutTreeNode>, m2: Map<u64, LayoutTreeNode>) -> bool {
    forall|k: u64| #[trigger] m1.contains_key(k) ==> m2.contains_key(k) && m2[k] == m1[k]
}

/// Growth of the identity record is transitive.
pub proof fn lemma_map_grows_trans(
    m1: Map<u64, LayoutTreeNode>,
    m2: Map<u64, LayoutTreeNode>,
    m3: Map<u64, LayoutTreeNode>,
)
    requires
        map_grows(m1, m2),
        map_grows(m2, m3),
    ensures
        map_grows(m1, m3),
{
    assert forall|k: u64| #[trigger] m1.contains_key(k) implies m3.contains_key(k) && m3[k]
        == m1[k] by {
        assert(m2.contains_key(k) && m2[k] == m1[k]);
    }
}

/// Source of identity handles, together with a ghost record of every
/// node built under one. Handles are unique until the supply runs out;
/// from then on nodes are built with `ANONYMOUS_ID` and stay out of the
/// record (and out of every cache).
pub struct IdGen {
    pub next: u64,
    pub ids: Ghost<Map<u64, LayoutTreeNode>>,
}

impl IdGen {
    /// Every recorded handle is below the next one to be handed out,
    /// and the anonymous handle is never recorded.
    pub open spec fn wf(self) -> bool {
        forall|k: u64|
            self.ids@.contains_key(k) ==> k < self.next && k != ANONYMOUS_ID
    }

    /// The ghost record of nodes built under this source.
    pub open spec fn ids(self) -> Map<u64, LayoutTreeNode> {
        self.ids@
    }

    /// A node is registered when its handle, unless anonymous, maps
    /// back to the node itself: two registered nodes with the same
    /// handle are the same node.
    pub open spec fn registered(self, n: LayoutTreeNode) -> bool {
        n.id != ANONYMOUS_ID ==> self.ids@.contains_key(n.id) && self.ids@[n.id] == n
    }

    pub fn new() -> (r: IdGen)
        ensures
            r.wf(),
            r.ids() == Map::<u64, LayoutTreeNode>::empty(),
    {
        IdGen { next: 0, ids: Ghost(Map::empty()) }
    }

    /// Builds a node around the given parts under a fresh handle, and
    /// records it. Everything registered before stays registered.
    pub fn make_node(
        &mut self,
        size: crate::geom::LogicalSize,
        margin: LogicalSideOffsets,
        render_text: Option<LayoutText>,
        children: Vec<LayoutChild>,
    ) -> (r: Rc<LayoutTreeNode>)
        requires
            old(self).wf(),
        ensures
            final(self).wf(),
            r.size == size,
            r.margin == margin,
            r.render_text == render_text,
            r.children == children,
            final(self).registered(*r),
            map_grows(old(self).ids(), final(self).ids()),
    {
        let id: u64 = if self.next < ANONYMOUS_ID {
            let i = self.next;
            self.next = self.next + 1;
            i
        } else {
            ANONYMOUS_ID
        };
        let node = LayoutTreeNode { id, size, margin, render_text, children };
        let ghost snap = node;
        let rc = Rc::new(node);
        if id < ANONYMOUS_ID {
            proof {
                self.ids@ = self.ids@.insert(id, snap);
            }
        }
        rc
    }
}

} // verus!

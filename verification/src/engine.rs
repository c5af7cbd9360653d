//! The layout engine: walks a styled element tree top-down, lays out
//! block elements by stacking (memoized per element) and inline
//! elements by line-breaking, and returns the tree of positioned boxes.
//!
//! The cache is keyed by the element's stable key; an entry is reused
//! when the style values are structurally equal and every child layout
//! is the same node by identity — an O(children) test on identity
//! handles, never a deep comparison.

use vstd::prelude::*;
use std::collections::HashMap;
use std::rc::Rc;
use crate::block::{calc_block_layout, calc_max_size, is_block_layout, spec_max_size};
use crate::geom::LogicalSize;
use crate::inline::{is_inline_layout, is_text_fragment, items_model, layout_of_items, InlineLayoutItem, ItemModel};
use crate::style::{BlockValues, ComputedValues, DisplayType};
use crate::text::{fit_height, fit_width, ShapedText};
use crate::tree::{lemma_map_grows_trans, map_grows, share_node, IdGen, LayoutChild, LayoutTreeNode, ANONYMOUS_ID};

verus! {

broadcast use vstd::std_specs::hash::group_hash_axioms;

/// One element of the style tree, as the engine consumes it: a stable
/// key (identifying the element across passes), its resolved style, and
/// its children. Text leaves arrive already shaped.
pub struct Element {
    /// Stable identity of this element across layout passes; two
    /// distinct elements of one tree never share a key.
    pub key: u64,
    pub values: ComputedValues,
    pub children: Vec<DomChild>,
}

/// A child of an element: a nested element or a shaped text leaf.
pub enum DomChild {
    Node(Element),
    Text(ShapedText),
}

/// What the memoization cache remembers for one element: the inputs of
/// the last block layout and its result.
pub struct BlockLayoutInputs {
    pub values: BlockValues,
    pub children: Vec<Rc<LayoutTreeNode>>,
}

/// A cache slot: the last inputs and the node they produced.
pub struct CacheEntry {
    pub inputs: BlockLayoutInputs,
    pub result: Rc<LayoutTreeNode>,
}

impl BlockLayoutInputs {
    /// Cache-key equality: style values structurally equal, same child
    /// count, and each child the same node by identity handle.
    pub open spec fn key_eq(self, values: BlockValues, childs: Seq<Rc<LayoutTreeNode>>) -> bool {
        &&& self.values == values
        &&& self.children@.len() == childs.len()
        &&& forall|j: int|
            0 <= j < childs.len() ==> (#[trigger] self.children@[j]).id == childs[j].id
                && childs[j].id != ANONYMOUS_ID
    }

    /// The memoization key test: structural equality on the style
    /// values, identity on each child layout.
    pub fn eq(&self, values: &BlockValues, children: &Vec<Rc<LayoutTreeNode>>) -> (r: bool)
        ensures
            r == self.key_eq(*values, children@),
    {
        if !(self.values == *values) {
            return false;
        }
        if self.children.len() != children.len() {
            return false;
        }
        let mut j: usize = 0;
        while j < children.len()
            invariant
                j <= children.len(),
                self.children@.len() == children@.len(),
                self.values == *values,
                forall|i: int|
                    0 <= i < j ==> (#[trigger] self.children@[i]).id == children@[i].id
                        && children@[i].id != ANONYMOUS_ID,
            decreases children.len() - j,
        {
            if self.children[j].id != children[j].id || children[j].id == ANONYMOUS_ID {
                return false;
            }
            j = j + 1;
        }
        true
    }
}

/// A sound cache entry stays sound when the identity record grows.
proof fn lemma_entry_wf_mono(e: CacheEntry, ids1: Map<u64, LayoutTreeNode>, ids2: Map<u64, LayoutTreeNode>)
    requires
        entry_wf(e, ids1),
        map_grows(ids1, ids2),
    ensures
        entry_wf(e, ids2),
{
    assert(ids2.contains_key(e.result.id) && ids2[e.result.id] == ids1[e.result.id]);
    assert forall|j: int| 0 <= j < e.inputs.children@.len() implies {
        &&& (#[trigger] e.inputs.children@[j]).id != ANONYMOUS_ID
        &&& ids2.contains_key(e.inputs.children@[j].id)
        &&& ids2[e.inputs.children@[j].id] == *e.inputs.children@[j]
    } by {
        let c = e.inputs.children@[j];
        assert(ids1.contains_key(c.id) && ids1[c.id] == *c);
        assert(ids2.contains_key(c.id) && ids2[c.id] == ids1[c.id]);
    }
}

/// A cache entry is sound when its result really is the block layout of
/// its recorded inputs, and entry and inputs are all on record with the
/// identity source, so that equal handles mean equal nodes.
pub open spec fn entry_wf(e: CacheEntry, ids: Map<u64, LayoutTreeNode>) -> bool {
    &&& is_block_layout(e.inputs.values, e.inputs.children@, *e.result)
    &&& e.result.id != ANONYMOUS_ID && ids.contains_key(e.result.id) && ids[e.result.id]
        == *e.result
    &&& forall|j: int|
        0 <= j < e.inputs.children@.len() ==> {
            &&& (#[trigger] e.inputs.children@[j]).id != ANONYMOUS_ID
            &&& ids.contains_key(e.inputs.children@[j].id)
            &&& ids[e.inputs.children@[j].id] == *e.inputs.children@[j]
        }
}

/// Builds the layout tree from a styled element tree, with a per-element
/// cache that skips recomputation of unchanged block subtrees.
pub struct LayoutEngine {
    pub cache: HashMap<u64, CacheEntry>,
    pub gen: IdGen,
}

impl LayoutEngine {
    /// Every cache entry is sound against the identity record.
    pub open spec fn wf(self) -> bool {
        &&& self.gen.wf()
        &&& forall|k: u64|
            self.cache@.contains_key(k) ==> entry_wf(#[trigger] self.cache@[k], self.gen.ids())
    }

    pub fn new() -> (r: LayoutEngine)
        ensures
            r.wf(),
            r.cache@ == Map::<u64, CacheEntry>::empty(),
    {
        LayoutEngine { cache: HashMap::new(), gen: IdGen::new() }
    }

    /// The memoization step. Returns the cached node when the slot
    /// under `key` was computed from these very inputs — equal style
    /// values and the same children by identity — so laying out an
    /// unchanged block twice returns the same node, identity handle
    /// included. Slots under other keys are never touched, so a pass
    /// over one subtree never disturbs what an independent subtree has
    /// cached.
    pub fn memo_block(&mut self, key: u64, values: &BlockValues, children: Vec<Rc<LayoutTreeNode>>) -> (r: Rc<LayoutTreeNode>)
        requires
            old(self).wf(),
            forall|j: int|
                0 <= j < children@.len() ==> old(self).gen.registered(*(#[trigger] children@[j])),
        ensures
            final(self).wf(),
            map_grows(old(self).gen.ids(), final(self).gen.ids()),
            is_block_layout(*values, children@, *r),
            final(self).gen.registered(*r),
            forall|k: u64|
                k != key ==> (final(self).cache@.contains_key(k) == old(self).cache@.contains_key(k)
                    && (old(self).cache@.contains_key(k)
                    ==> final(self).cache@[k] == old(self).cache@[k])),
            (old(self).cache@.contains_key(key)
                && old(self).cache@[key].inputs.key_eq(*values, children@))
                ==> (r == old(self).cache@[key].result
                    && final(self).cache@ == old(self).cache@
                    && final(self).gen == old(self).gen),
            (r.id != ANONYMOUS_ID && forall|j: int|
                0 <= j < children@.len() ==> (#[trigger] children@[j]).id != ANONYMOUS_ID)
                ==> (final(self).cache@.contains_key(key)
                    && final(self).cache@[key].result == r
                    && final(self).cache@[key].inputs.values == *values
                    && final(self).cache@[key].inputs.children@ == children@),
    {
        let hit = match self.cache.get(&key) {
            Some(e) => e.inputs.eq(values, &children),
            None => false,
        };
        if hit {
            let e = self.cache.get(&key).unwrap();
            proof {
                assert(entry_wf(self.cache@[key], self.gen.ids()));
                assert forall|j: int| 0 <= j < children@.len() implies self.cache@[key].inputs.children@[j]
                    == children@[j] by {
                    let c = self.cache@[key].inputs.children@[j];
                    let d = children@[j];
                    assert(self.gen.ids()[c.id] == *c);
                    assert(self.gen.ids()[d.id] == *d);
                }
                assert(self.cache@[key].inputs.children@ =~= children@);
            }
            return share_node(&e.result);
        }
        let kids = share_children(&children);
        let r = calc_block_layout(&mut self.gen, values, kids);
        proof {
            assert forall|k: u64| self.cache@.contains_key(k) implies entry_wf(
                #[trigger] self.cache@[k],
                self.gen.ids(),
            ) by {
                lemma_entry_wf_mono(self.cache@[k], old(self).gen.ids(), self.gen.ids());
            }
        }
        let mut storable = r.id != ANONYMOUS_ID;
        let mut j: usize = 0;
        while j < children.len()
            invariant
                j <= children.len(),
                storable == (r.id != ANONYMOUS_ID && forall|i: int|
                    0 <= i < j ==> (#[trigger] children@[i]).id != ANONYMOUS_ID),
            decreases children.len() - j,
        {
            if children[j].id == ANONYMOUS_ID {
                storable = false;
            }
            j = j + 1;
        }
        if storable {
            let entry = CacheEntry {
                inputs: BlockLayoutInputs { values: *values, children },
                result: share_node(&r),
            };
            proof {
                assert forall|j: int| 0 <= j < entry.inputs.children@.len() implies {
                    &&& (#[trigger] entry.inputs.children@[j]).id != ANONYMOUS_ID
                    &&& self.gen.ids().contains_key(entry.inputs.children@[j].id)
                    &&& self.gen.ids()[entry.inputs.children@[j].id] == *entry.inputs.children@[j]
                } by {
                    let c = entry.inputs.children@[j];
                    assert(old(self).gen.registered(*c));
                    assert(old(self).gen.ids().contains_key(c.id));
                }
                assert(entry_wf(entry, self.gen.ids()));
            }
            self.cache.insert(key, entry);
        }
        r
    }
}


/// Items already collected stay in place when more are appended.
proof fn lemma_prefix_push(a: Seq<InlineLayoutItem>, b: Seq<InlineLayoutItem>, x: InlineLayoutItem)
    requires
        a.is_prefix_of(b),
    ensures
        a.is_prefix_of(b.push(x)),
{
    assert(b.push(x).subrange(0, a.len() as int) =~= b.subrange(0, a.len() as int));
}

/// Collected prefixes chain across nested traversals.
proof fn lemma_prefix_trans(a: Seq<InlineLayoutItem>, b: Seq<InlineLayoutItem>, c: Seq<InlineLayoutItem>)
    requires
        a.is_prefix_of(b),
        b.is_prefix_of(c),
    ensures
        a.is_prefix_of(c),
{
    assert(c.subrange(0, a.len() as int) =~= b.subrange(0, a.len() as int));
}

/// The child nodes a finished block holds, in order.
pub open spec fn child_layouts(r: LayoutTreeNode) -> Seq<Rc<LayoutTreeNode>> {
    r.children@.map_values(|c: crate::tree::LayoutChild| c.layout)
}

/// A node is the block layout of the very children it carries.
pub open spec fn is_consistent_block(values: BlockValues, r: LayoutTreeNode) -> bool {
    is_block_layout(values, child_layouts(r), r)
}


/// One element child laid out as the layout pass lays it out: a text
/// leaf becomes a whole-text unwrapped fragment measured against an
/// effectively unbounded width; a block child is stacked recursively; an
/// inline child is line-broken against the same content budget.
pub open spec fn child_lays_out(dc: DomChild, max: LogicalSize, n: Rc<LayoutTreeNode>) -> bool
    decreases dc,
{
    match dc {
        DomChild::Text(t) => is_text_fragment(
            n,
            t@,
            0,
            t@.segs.len() as int,
            fit_width(t@.segs, u64::MAX as int),
            fit_height(t@.segs, u64::MAX as int),
        ),
        DomChild::Node(elem) => match elem.values.display {
            DisplayType::Block(b) => lays_out_block(elem, b, max, n),
            DisplayType::Inline => lays_out_inline(elem, max, n),
        },
    }
}

/// Each element child in order lays out to the matching result child's
/// node, against one shared content budget.
pub open spec fn children_lay_out(cs: Seq<DomChild>, max: LogicalSize, rs: Seq<LayoutChild>) -> bool
    decreases cs,
{
    if cs.len() != rs.len() {
        false
    } else if cs.len() == 0 {
        true
    } else {
        children_lay_out(cs.drop_last(), max, rs.drop_last()) && child_lays_out(
            cs.last(),
            max,
            rs.last().layout,
        )
    }
}

/// The node is the block layout of this very element: one child per
/// element child, each the layout of the matching element child against
/// the block's content box, stacked by the block algorithm.
pub open spec fn lays_out_block(elem: Element, b: BlockValues, parent_max: LogicalSize, n: Rc<LayoutTreeNode>) -> bool
    decreases elem,
{
    &&& is_consistent_block(b, *n)
    &&& children_lay_out(elem.children@, spec_max_size(b, parent_max), n.children@)
}

/// The node is the inline layout of this very element: some item
/// sequence collected from the element's subtree is packed into lines.
pub open spec fn lays_out_inline(elem: Element, max: LogicalSize, n: Rc<LayoutTreeNode>) -> bool
    decreases elem,
{
    exists|items: Seq<ItemModel>|
        collects_to(elem.children@, max, items) && is_inline_layout(items, max.width as int, *n)
}

/// The flattening pass of inline layout, child by child: a text leaf
/// contributes one text item, a block child one atomic box item whose
/// node is that block's layout, and a nested inline element the items
/// of its own children — its box never materializes. Indices point into
/// the contributing element's own child list.
pub open spec fn collects_to(cs: Seq<DomChild>, max: LogicalSize, items: Seq<ItemModel>) -> bool
    decreases cs,
{
    if cs.len() == 0 {
        items.len() == 0
    } else {
        match cs.last() {
            DomChild::Text(t) => {
                &&& items.len() >= 1
                &&& collects_to(cs.drop_last(), max, items.drop_last())
                &&& items.last() == (ItemModel::Text { index: cs.len() - 1, t: t@ })
            },
            DomChild::Node(elem) => match elem.values.display {
                DisplayType::Block(b) => {
                    &&& items.len() >= 1
                    &&& collects_to(cs.drop_last(), max, items.drop_last())
                    &&& match items.last() {
                        ItemModel::Box { index, node } => index == cs.len() - 1 && lays_out_block(
                            elem,
                            b,
                            max,
                            node,
                        ),
                        ItemModel::Text { .. } => false,
                    }
                },
                DisplayType::Inline => exists|k: int|
                    0 <= k <= items.len() && collects_to(cs.drop_last(), max, items.take(k))
                        && collects_to(elem.children@, max, items.skip(k)),
            },
        }
    }
}


/// The model of a longer list starts with the model of its prefix.
proof fn lemma_items_model_prefix(a: Seq<InlineLayoutItem>, b: Seq<InlineLayoutItem>)
    requires
        a.is_prefix_of(b),
    ensures
        items_model(b).take(a.len() as int) =~= items_model(a),
{
    assert forall|j: int| 0 <= j < a.len() implies items_model(b).take(a.len() as int)[j]
        == items_model(a)[j] by {
        assert(a[j] == b.subrange(0, a.len() as int)[j]);
    }
}

/// Pushing one item pushes its model.
proof fn lemma_items_model_push(a: Seq<InlineLayoutItem>, x: InlineLayoutItem)
    ensures
        items_model(a.push(x)) =~= items_model(a).push(crate::inline::item_model(x)),
{
    assert forall|j: int| 0 <= j < a.len() + 1 implies items_model(a.push(x))[j] == items_model(
        a,
    ).push(crate::inline::item_model(x))[j] by {
        if j < a.len() {
            assert(a.push(x)[j] == a[j]);
        } else {
            assert(a.push(x)[j] == x);
        }
    }
}

/// Pointwise per-child layout gives the recursive correspondence.
proof fn lemma_children_lay_out_intro(cs: Seq<DomChild>, max: LogicalSize, rs: Seq<LayoutChild>)
    requires
        cs.len() == rs.len(),
        forall|i: int| 0 <= i < cs.len() ==> child_lays_out(#[trigger] cs[i], max, rs[i].layout),
    ensures
        children_lay_out(cs, max, rs),
    decreases cs.len(),
{
    if cs.len() > 0 {
        assert(forall|i: int|
            0 <= i < cs.drop_last().len() ==> cs.drop_last()[i] == cs[i]
                && rs.drop_last()[i] == rs[i]);
        lemma_children_lay_out_intro(cs.drop_last(), max, rs.drop_last());
        assert(child_lays_out(cs[cs.len() - 1], max, rs[cs.len() - 1].layout));
    }
}


impl LayoutEngine {
    /// Lays out a block element: every child first — nested blocks by
    /// recursion, inline subtrees by line-breaking, text leaves measured
    /// whole against an unbounded width — then one stacking pass over
    /// the results, memoized under the element's key.
    pub fn layout_block(&mut self, node: &Element, block: &BlockValues, parent_max_size: LogicalSize) -> (r: Rc<LayoutTreeNode>)
        requires
            old(self).wf(),
        ensures
            final(self).wf(),
            map_grows(old(self).gen.ids(), final(self).gen.ids()),
            final(self).gen.registered(*r),
            lays_out_block(*node, *block, parent_max_size, r),
            r.children@.len() == node.children@.len(),
        decreases *node, 2int,
    {
        let max_size = calc_max_size(block, parent_max_size);
        let mut children: Vec<Rc<LayoutTreeNode>> = Vec::new();
        let mut i: usize = 0;
        while i < node.children.len()
            invariant
                self.wf(),
                map_grows(old(self).gen.ids(), self.gen.ids()),
                i <= node.children@.len(),
                children@.len() == i as int,
                max_size == spec_max_size(*block, parent_max_size),
                forall|j: int| 0 <= j < i ==> self.gen.registered(*(#[trigger] children@[j])),
                forall|j: int|
                    0 <= j < i ==> child_lays_out(#[trigger] node.children@[j], max_size, children@[j]),
            decreases node.children.len() - i,
        {
            let ghost gpre = self.gen.ids();
            let c = match &node.children[i] {
                DomChild::Node(child_elem) => {
                    match &child_elem.values.display {
                        DisplayType::Block(b) => self.layout_block(child_elem, b, max_size),
                        DisplayType::Inline => self.layout_inline(child_elem, max_size),
                    }
                },
                DomChild::Text(text) => {
                    let f = text.fill_line(u64::MAX, 0);
                    let frag = crate::inline::make_fragment(
                        &mut self.gen,
                        text,
                        0,
                        text.segments.len(),
                        f.1,
                        f.2,
                    );
                    proof {
                        assert forall|k: u64| self.cache@.contains_key(k) implies entry_wf(
                            #[trigger] self.cache@[k],
                            self.gen.ids(),
                        ) by {
                            lemma_entry_wf_mono(self.cache@[k], gpre, self.gen.ids());
                        }
                        assert(text@.segs.skip(0) =~= text@.segs);
                    }
                    frag
                },
            };
            proof {
                lemma_map_grows_trans(old(self).gen.ids(), gpre, self.gen.ids());
                assert(child_lays_out(node.children@[i as int], max_size, c));
                assert forall|j: int| 0 <= j < children@.len() implies self.gen.registered(
                    *(#[trigger] children@[j]),
                ) by {
                    let cc = children@[j];
                    if cc.id != ANONYMOUS_ID {
                        assert(gpre.contains_key(cc.id) && gpre[cc.id] == *cc);
                    }
                }
            }
            children.push(c);
            i = i + 1;
        }
        let ghost kids = children@;
        let r = self.memo_block(node.key, block, children);
        proof {
            assert(child_layouts(*r) =~= kids);
            assert forall|j: int| 0 <= j < node.children@.len() implies child_lays_out(
                #[trigger] node.children@[j],
                spec_max_size(*block, parent_max_size),
                r.children@[j].layout,
            ) by {
                assert(r.children@[j].layout == kids[j]);
            }
            lemma_children_lay_out_intro(
                node.children@,
                spec_max_size(*block, parent_max_size),
                r.children@,
            );
        }
        r
    }

    /// Lays out an inline element: its whole subtree is flattened into
    /// one item sequence, which the line packer flows into lines.
    pub fn layout_inline(&mut self, node: &Element, max_size: LogicalSize) -> (r: Rc<LayoutTreeNode>)
        requires
            old(self).wf(),
        ensures
            final(self).wf(),
            map_grows(old(self).gen.ids(), final(self).gen.ids()),
            final(self).gen.registered(*r),
            lays_out_inline(*node, max_size, r),
        decreases *node, 1int,
    {
        let mut items: Vec<InlineLayoutItem> = Vec::new();
        self.collect_inline_items(node, max_size, &mut items);
        let ghost its = items_model(items@);
        let ghost gpre = self.gen.ids();
        let r = layout_of_items(&mut self.gen, items, max_size.width);
        proof {
            lemma_map_grows_trans(old(self).gen.ids(), gpre, self.gen.ids());
            assert forall|k: u64| self.cache@.contains_key(k) implies entry_wf(
                #[trigger] self.cache@[k],
                self.gen.ids(),
            ) by {
                lemma_entry_wf_mono(self.cache@[k], gpre, self.gen.ids());
            }
            assert(its.skip(0) =~= its);
            assert(collects_to(node.children@, max_size, its));
            assert(is_inline_layout(its, max_size.width as int, *r));
            assert(lays_out_inline(*node, max_size, r));
        }
        r
    }

    /// Flattens an inline subtree into the collected item sequence, in
    /// source order: nested inline content joins the same sequence (its
    /// own box is never materialized), a block-level child becomes one
    /// atomic item carrying its computed layout, and a text leaf one
    /// text item.
    pub fn collect_inline_items(&mut self, node: &Element, max_size: LogicalSize, items: &mut Vec<InlineLayoutItem>)
        requires
            old(self).wf(),
        ensures
            final(self).wf(),
            map_grows(old(self).gen.ids(), final(self).gen.ids()),
            old(items)@.is_prefix_of(final(items)@),
            collects_to(
                node.children@,
                max_size,
                items_model(final(items)@).skip(old(items)@.len() as int),
            ),
        decreases *node, 0int,
    {
        let ghost n0 = items@.len() as int;
        let mut i: usize = 0;
        while i < node.children.len()
            invariant
                self.wf(),
                map_grows(old(self).gen.ids(), self.gen.ids()),
                i <= node.children@.len(),
                old(items)@.is_prefix_of(items@),
                n0 == old(items)@.len() as int,
                collects_to(node.children@.take(i as int), max_size, items_model(items@).skip(n0)),
            decreases node.children.len() - i,
        {
            let ghost gpre = self.gen.ids();
            let ghost ipre = items@;
            let ghost cs1 = node.children@.take(i as int + 1);
            proof {
                assert(cs1.last() == node.children@[i as int]);
                assert(cs1.drop_last() =~= node.children@.take(i as int));
            }
            match &node.children[i] {
                DomChild::Node(child_elem) => {
                    match &child_elem.values.display {
                        DisplayType::Block(b) => {
                            let layout = self.layout_block(child_elem, b, max_size);
                            items.push(InlineLayoutItem::Block { index: i, layout });
                            proof {
                                lemma_prefix_push(old(items)@, ipre, items@.last());
                                lemma_items_model_push(ipre, items@.last());
                                let chunk = items_model(items@).skip(n0);
                                assert(chunk.drop_last() =~= items_model(ipre).skip(n0));
                                assert(chunk.last() == (ItemModel::Box {
                                    index: i as int,
                                    node: layout,
                                }));
                                assert(collects_to(cs1, max_size, chunk));
                            }
                        },
                        DisplayType::Inline => {
                            let ghost mid = items@.len() as int;
                            self.collect_inline_items(child_elem, max_size, items);
                            proof {
                                lemma_prefix_trans(old(items)@, ipre, items@);
                                lemma_items_model_prefix(ipre, items@);
                                let chunk = items_model(items@).skip(n0);
                                let k = mid - n0;
                                assert(chunk.take(k) =~= items_model(items@).take(mid).skip(n0));
                                assert(items_model(items@).take(mid).skip(n0) =~= items_model(
                                    ipre,
                                ).skip(n0));
                                assert(chunk.skip(k) =~= items_model(items@).skip(mid));
                                assert(collects_to(cs1.drop_last(), max_size, chunk.take(k)));
                                assert(collects_to(child_elem.children@, max_size, chunk.skip(k)));
                                assert(0 <= k <= chunk.len());
                                assert(collects_to(cs1, max_size, chunk));
                            }
                        },
                    }
                },
                DomChild::Text(text) => {
                    let dup = text.duplicate();
                    items.push(InlineLayoutItem::Text { index: i, text: dup });
                    proof {
                        lemma_prefix_push(old(items)@, ipre, items@.last());
                        lemma_items_model_push(ipre, items@.last());
                        let chunk = items_model(items@).skip(n0);
                        assert(chunk.drop_last() =~= items_model(ipre).skip(n0));
                        assert(chunk.last() == (ItemModel::Text { index: i as int, t: text@ }));
                        assert(collects_to(cs1, max_size, chunk));
                    }
                },
            }
            proof {
                lemma_map_grows_trans(old(self).gen.ids(), gpre, self.gen.ids());
            }
            i = i + 1;
        }
        proof {
            assert(node.children@.take(node.children@.len() as int) =~= node.children@);
        }
    }

    /// Dispatches the root element on its display mode: a block root is
    /// stacked (children first), an inline root is line-broken.
    fn run_layout(&mut self, node: &Element, size: LogicalSize) -> (r: Rc<LayoutTreeNode>)
        requires
            old(self).wf(),
        ensures
            final(self).wf(),
            map_grows(old(self).gen.ids(), final(self).gen.ids()),
            final(self).gen.registered(*r),
            match node.values.display {
                DisplayType::Block(b) => lays_out_block(*node, b, size, r),
                DisplayType::Inline => lays_out_inline(*node, size, r),
            },
    {
        match &node.values.display {
            DisplayType::Block(b) => self.layout_block(node, b, size),
            DisplayType::Inline => self.layout_inline(node, size),
        }
    }

    /// Performs one layout pass over the element tree against the
    /// target content size and returns a fresh, or cache-reused, tree.
    pub fn layout(&mut self, node: &Element, size: LogicalSize) -> (r: Rc<LayoutTreeNode>)
        requires
            old(self).wf(),
        ensures
            final(self).wf(),
            map_grows(old(self).gen.ids(), final(self).gen.ids()),
            final(self).gen.registered(*r),
            match node.values.display {
                DisplayType::Block(b) => lays_out_block(*node, b, size, r),
                DisplayType::Inline => lays_out_inline(*node, size, r),
            },
    {
        self.run_layout(node, size)
    }
}




/// Second handles to every node of a list, in order.
fn share_children(children: &Vec<Rc<LayoutTreeNode>>) -> (r: Vec<Rc<LayoutTreeNode>>)
    ensures
        r@ == children@,
{
    let mut out: Vec<Rc<LayoutTreeNode>> = Vec::new();
    let mut i: usize = 0;
    while i < children.len()
        invariant
            i <= children.len(),
            out@ == children@.take(i as int),
        decreases children.len() - i,
    {
        out.push(share_node(&children[i]));
        i = i + 1;
        proof {
            assert(children@.take(i as int) =~= children@.take(i as int - 1).push(children@[i - 1]));
        }
    }
    proof {
        assert(children@.take(children@.len() as int) =~= children@);
    }
    out
}

} // verus!

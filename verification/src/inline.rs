//! Inline layout: greedy line packing of mixed content. Items arrive
//! in source order — atomic boxes (block-level descendants already laid
//! out) and shaped text runs — and are flowed into lines against a
//! width budget, baseline-aligned within each line by ascent.

use vstd::prelude::*;
use std::rc::Rc;
use crate::geom::{add_len, max_len, max_of, sat_add, sat_sub, sub_len, LogicalPoint, LogicalSideOffsets, LogicalSize};
use crate::text::{fit_ascent, fit_count, fit_height, fit_width, skip_ws, SegModel, ShapedText, ShapedTextModel};
use crate::tree::{share_node, IdGen, LayoutChild, LayoutText, LayoutTreeNode};

verus! {

/// What one pending or placed line item is, in the model: either an
/// atomic box that already exists as a node, or a description of the
/// text-fragment node the line-breaker builds for a fitted run.
pub ghost enum ItemNode {
    Box { node: Rc<LayoutTreeNode> },
    Fragment { t: ShapedTextModel, start: int, end: int, width: int, height: int },
}

/// A pending item of the current line: position and ascent are fixed,
/// the vertical offset is not yet.
pub ghost struct PendingModel {
    pub index: int,
    pub ascender: int,
    pub x: int,
    pub node: ItemNode,
}

/// A placed child of the inline container.
pub ghost struct ChildModel {
    pub index: int,
    pub x: int,
    pub y: int,
    pub node: ItemNode,
}

/// The whole state of the line packer, as the contracts speak of it.
pub ghost struct LineModel {
    pub children: Seq<ChildModel>,
    pub max_width: int,
    pub x: int,
    pub height: int,
    pub line_height: int,
    pub line_ascender: int,
    pub longest: int,
    pub pending: Seq<PendingModel>,
}

/// One item of the flattened inline content, in the model.
pub ghost enum ItemModel {
    Box { index: int, node: Rc<LayoutTreeNode> },
    Text { index: int, t: ShapedTextModel },
}

/// The characters of segments `start..end` of a shaped run, in order.
pub open spec fn concat_text(segs: Seq<SegModel>, start: int, end: int) -> Seq<char>
    decreases end - start,
{
    if start >= end {
        Seq::empty()
    } else {
        segs[start].text + concat_text(segs, start + 1, end)
    }
}

/// The node the line-breaker builds for a fitted run of segments: a
/// leaf carrying the run's characters and text size, sized to the
/// fitted width and line height, with no margin of its own.
pub open spec fn is_text_fragment(
    n: Rc<LayoutTreeNode>,
    t: ShapedTextModel,
    start: int,
    end: int,
    width: int,
    height: int,
) -> bool {
    &&& match n.render_text {
        Some(rt) => rt.text@ == concat_text(t.segs, start, end) && rt.size == t.size,
        None => false,
    }
    &&& n.size.width == width
    &&& n.size.height == height
    &&& n.margin.top == 0 && n.margin.right == 0 && n.margin.bottom == 0 && n.margin.left == 0
    &&& n.children@.len() == 0
}

/// A real node answers to an item of the model.
pub open spec fn node_matches(rc: Rc<LayoutTreeNode>, pn: ItemNode) -> bool {
    match pn {
        ItemNode::Box { node } => rc == node,
        ItemNode::Fragment { t, start, end, width, height } => is_text_fragment(
            rc,
            t,
            start,
            end,
            width,
            height,
        ),
    }
}

/// The line packer's starting state.
pub open spec fn init_line(max_width: int) -> LineModel {
    LineModel {
        children: Seq::empty(),
        max_width,
        x: 0,
        height: 0,
        line_height: 0,
        line_ascender: 0,
        longest: 0,
        pending: Seq::empty(),
    }
}

/// The carriage return: every pending item becomes a placed child at
/// its recorded x, bottom-aligned to the line's common baseline; the
/// accumulated height grows by the line height, the longest line is
/// updated from the cursor, and the line resets.
pub open spec fn placed_children(m: LineModel) -> Seq<ChildModel> {
    m.pending.map_values(
        |p: PendingModel| ChildModel {
            index: p.index,
            x: p.x,
            y: sat_add(m.height, m.line_ascender - p.ascender),
            node: p.node,
        },
    )
}

pub open spec fn line_flushed(m: LineModel) -> LineModel {
    LineModel {
        children: m.children + placed_children(m),
        max_width: m.max_width,
        x: 0,
        height: sat_add(m.height, m.line_height),
        line_height: 0,
        line_ascender: 0,
        longest: max_len(m.longest, m.x),
        pending: Seq::empty(),
    }
}

/// An atomic box item: wraps first when it would overrun a non-empty
/// line, then joins the line at the cursor; line height and ascent both
/// absorb its full height, since an atomic box has no sub-baseline.
pub open spec fn block_inserted(m: LineModel, index: int, node: Rc<LayoutTreeNode>) -> LineModel {
    let m1 = if m.x + node.size.width > m.max_width && m.pending.len() > 0 {
        line_flushed(m)
    } else {
        m
    };
    LineModel {
        children: m1.children,
        max_width: m1.max_width,
        x: sat_add(m1.x, node.size.width as int),
        height: m1.height,
        line_height: max_len(m1.line_height, node.size.height as int),
        line_ascender: max_len(m1.line_ascender, node.size.height as int),
        longest: m1.longest,
        pending: m1.pending.push(
            PendingModel {
                index,
                ascender: node.size.height as int,
                x: m1.x,
                node: ItemNode::Box { node },
            },
        ),
    }
}

/// A fitted run of segments joins the line as a pending fragment.
pub open spec fn frag_pushed(
    m: LineModel,
    index: int,
    t: ShapedTextModel,
    start: int,
    end: int,
    width: int,
    height: int,
    ascent: int,
) -> LineModel {
    LineModel {
        children: m.children,
        max_width: m.max_width,
        x: sat_add(m.x, width),
        height: m.height,
        line_height: max_len(m.line_height, height),
        line_ascender: max_len(m.line_ascender, ascent),
        longest: m.longest,
        pending: m.pending.push(
            PendingModel {
                index,
                ascender: ascent,
                x: m.x,
                node: ItemNode::Fragment { t, start, end, width, height },
            },
        ),
    }
}


/// One text run worked through the line packer, starting at `offset`:
/// fit as much as fits at the cursor; on a zero fit, wrap, skip the
/// separator, and refit against the full width; if even that fits
/// nothing, force the single oversized segment onto the fresh line.
/// Each fitted (possibly empty) run joins the line as one fragment.
pub open spec fn text_inserted(m: LineModel, index: int, t: ShapedTextModel, offset: int) -> LineModel
    decreases t.segs.len() - offset,
    via text_inserted_decreases
{
    if offset < 0 || offset >= t.segs.len() {
        m
    } else {
        let remaining = sat_sub(m.max_width, m.x);
        let end = fit_count(t.segs.skip(offset), remaining) as int;
        if end > 0 {
            text_inserted(
                frag_pushed(
                    m,
                    index,
                    t,
                    offset,
                    offset + end,
                    fit_width(t.segs.skip(offset), remaining),
                    fit_height(t.segs.skip(offset), remaining),
                    fit_ascent(t.segs.skip(offset), remaining),
                ),
                index,
                t,
                offset + end,
            )
        } else {
            let m1 = line_flushed(m);
            let o1 = skip_ws(t.segs, offset);
            let end2 = fit_count(t.segs.skip(o1), m.max_width) as int;
            if end2 > 0 {
                text_inserted(
                    frag_pushed(
                        m1,
                        index,
                        t,
                        o1,
                        o1 + end2,
                        fit_width(t.segs.skip(o1), m.max_width),
                        fit_height(t.segs.skip(o1), m.max_width),
                        fit_ascent(t.segs.skip(o1), m.max_width),
                    ),
                    index,
                    t,
                    o1 + end2,
                )
            } else if o1 < t.segs.len() {
                text_inserted(
                    frag_pushed(
                        m1,
                        index,
                        t,
                        o1,
                        o1 + 1,
                        t.segs[o1].width,
                        t.segs[o1].height,
                        t.segs[o1].ascent,
                    ),
                    index,
                    t,
                    o1 + 1,
                )
            } else {
                frag_pushed(m1, index, t, o1, o1, 0, 0, 0)
            }
        }
    }
}

#[via_fn]
proof fn text_inserted_decreases(m: LineModel, index: int, t: ShapedTextModel, offset: int) {
    if 0 <= offset < t.segs.len() {
        crate::text::lemma_fit_count_le(t.segs.skip(offset), sat_sub(m.max_width, m.x));
        crate::text::lemma_skip_ws_bounds(t.segs, offset);
        let o1 = skip_ws(t.segs, offset);
        crate::text::lemma_fit_count_le(t.segs.skip(o1), m.max_width);
    }
}


/// Appending one more segment extends the concatenation at the end.
proof fn lemma_concat_snoc(segs: Seq<SegModel>, start: int, end: int)
    requires
        start <= end,
    ensures
        concat_text(segs, start, end + 1) == concat_text(segs, start, end) + segs[end].text,
    decreases end - start,
{
    if start == end {
        assert(concat_text(segs, start, end) == Seq::<char>::empty());
        assert(concat_text(segs, start, start + 1) == segs[start].text + concat_text(segs, start + 1, start + 1));
        assert(segs[start].text + Seq::<char>::empty() =~= segs[start].text);
        assert(Seq::<char>::empty() + segs[start].text =~= segs[start].text);
    } else {
        lemma_concat_snoc(segs, start + 1, end);
        assert(segs[start].text + (concat_text(segs, start + 1, end) + segs[end].text)
            =~= (segs[start].text + concat_text(segs, start + 1, end)) + segs[end].text);
    }
}

/// Builds the leaf node for a fitted run: the characters of segments
/// `start..end`, the run's text size, and the measured extent.
pub(crate) fn make_fragment(
    gen: &mut IdGen,
    text: &ShapedText,
    start: usize,
    end: usize,
    width: u64,
    height: u64,
) -> (r: Rc<LayoutTreeNode>)
    requires
        old(gen).wf(),
        start <= end <= text@.segs.len(),
    ensures
        final(gen).wf(),
        crate::tree::map_grows(old(gen).ids(), final(gen).ids()),
        final(gen).registered(*r),
        is_text_fragment(r, text@, start as int, end as int, width as int, height as int),
{
    let ghost t = text@;
    let mut s = String::new();
    let mut i: usize = start;
    while i < end
        invariant
            start <= i <= end <= text@.segs.len(),
            t == text@,
            s@ == concat_text(t.segs, start as int, i as int),
        decreases end - i,
    {
        proof {
            lemma_concat_snoc(t.segs, start as int, i as int);
        }
        s.append(text.segments[i].text.as_str());
        i = i + 1;
    }
    let payload = LayoutText { text: s, size: text.size };
    gen.make_node(
        LogicalSize { width, height },
        LogicalSideOffsets::zero(),
        Some(payload),
        Vec::new(),
    )
}


/// A single word wider than the whole line overflows it alone: the
/// current line is flushed, the word is force-fitted as one fragment at
/// the start of the fresh line, and the cursor — hence the width the
/// line reports when it is flushed — exceeds the nominal maximum.
pub proof fn lemma_overflow_word(m: LineModel, index: int, t: ShapedTextModel, offset: int)
    requires
        0 <= offset < t.segs.len(),
        !t.segs[offset].whitespace,
        0 <= m.x,
        0 <= m.max_width,
        m.max_width < t.segs[offset].width <= u64::MAX,
    ensures
        text_inserted(m, index, t, offset) == text_inserted(
            frag_pushed(
                line_flushed(m),
                index,
                t,
                offset,
                offset + 1,
                t.segs[offset].width,
                t.segs[offset].height,
                t.segs[offset].ascent,
            ),
            index,
            t,
            offset + 1,
        ),
        frag_pushed(
            line_flushed(m),
            index,
            t,
            offset,
            offset + 1,
            t.segs[offset].width,
            t.segs[offset].height,
            t.segs[offset].ascent,
        ).pending.last().x == 0,
        frag_pushed(
            line_flushed(m),
            index,
            t,
            offset,
            offset + 1,
            t.segs[offset].width,
            t.segs[offset].height,
            t.segs[offset].ascent,
        ).x == t.segs[offset].width > m.max_width,
{
    let remaining = sat_sub(m.max_width, m.x);
    assert(t.segs.skip(offset)[0] == t.segs[offset]);
    assert(remaining <= m.max_width);
    assert(fit_count(t.segs.skip(offset), remaining) == 0);
    assert(skip_ws(t.segs, offset) == offset);
    assert(fit_count(t.segs.skip(offset), m.max_width) == 0);
    assert(line_flushed(m).x == 0);
}

/// A line item mirrors a pending entry of the model.
pub struct LineItem {
    pub ascender: u64,
    pub index: usize,
    pub x: u64,
    pub layout: Rc<LayoutTreeNode>,
}

/// Working state of the line packer.
pub struct LineState {
    pub children: Vec<LayoutChild>,
    pub max_width: u64,
    pub x: u64,
    pub height: u64,
    pub line_height: u64,
    pub line_ascender: u64,
    pub longest_line: u64,
    pub line_items: Vec<LineItem>,
    pub model: Ghost<LineModel>,
}

/// Placed children answer to the model's, in order.
pub open spec fn children_match(cs: Seq<LayoutChild>, ms: Seq<ChildModel>) -> bool {
    &&& cs.len() == ms.len()
    &&& forall|i: int|
        0 <= i < cs.len() ==> {
            &&& (#[trigger] cs[i]).index == ms[i].index
            &&& cs[i].position.x == ms[i].x
            &&& cs[i].position.y == ms[i].y
            &&& node_matches(cs[i].layout, ms[i].node)
        }
}

/// Pending items answer to the model's, in order.
pub open spec fn pending_match(ps: Seq<LineItem>, ms: Seq<PendingModel>) -> bool {
    &&& ps.len() == ms.len()
    &&& forall|i: int|
        0 <= i < ps.len() ==> {
            &&& (#[trigger] ps[i]).index == ms[i].index
            &&& ps[i].ascender == ms[i].ascender
            &&& ps[i].x == ms[i].x
            &&& node_matches(ps[i].layout, ms[i].node)
        }
}

impl LineState {
    /// The working state agrees with its model, and no pending ascent
    /// exceeds the line's.
    pub open spec fn inv(self) -> bool {
        &&& self.max_width == self.model@.max_width
        &&& self.x == self.model@.x
        &&& self.height == self.model@.height
        &&& self.line_height == self.model@.line_height
        &&& self.line_ascender == self.model@.line_ascender
        &&& self.longest_line == self.model@.longest
        &&& children_match(self.children@, self.model@.children)
        &&& pending_match(self.line_items@, self.model@.pending)
        &&& forall|i: int|
            0 <= i < self.line_items@.len() ==> (#[trigger] self.line_items@[i]).ascender
                <= self.line_ascender
    }

    pub fn new(max_width: u64) -> (r: LineState)
        ensures
            r.inv(),
            r.model@ == init_line(max_width as int),
    {
        LineState {
            children: Vec::new(),
            max_width,
            x: 0,
            height: 0,
            line_height: 0,
            line_ascender: 0,
            longest_line: 0,
            line_items: Vec::new(),
            model: Ghost(init_line(max_width as int)),
        }
    }

    /// Flushes the current line: places every pending item against the
    /// common baseline, stacks the line below the previous ones, and
    /// resets the cursor.
    pub fn carriage_return(&mut self)
        requires
            old(self).inv(),
        ensures
            final(self).inv(),
            final(self).model@ == line_flushed(old(self).model@),
    {
        let ghost m = self.model@;
        let ghost placed = placed_children(m);
        let mut i: usize = 0;
        while i < self.line_items.len()
            invariant
                old(self).inv(),
                i <= self.line_items.len(),
                m == old(self).model@,
                placed == placed_children(m),
                self.line_items == old(self).line_items,
                self.height == old(self).height,
                self.line_ascender == old(self).line_ascender,
                self.line_height == old(self).line_height,
                self.x == old(self).x,
                self.max_width == old(self).max_width,
                self.longest_line == old(self).longest_line,
                self.model == old(self).model,
                children_match(self.children@, m.children + placed.take(i as int)),
            decreases self.line_items.len() - i,
        {
            let item = &self.line_items[i];
            let y = add_len(self.height, self.line_ascender - item.ascender);
            let child = LayoutChild {
                index: item.index,
                position: LogicalPoint { x: item.x, y },
                layout: share_node(&item.layout),
            };
            self.children.push(child);
            i = i + 1;
            proof {
                assert(placed.take(i as int) =~= placed.take(i as int - 1).push(placed[i as int - 1]));
                assert((m.children + placed.take(i as int - 1)).push(placed[i as int - 1])
                    =~= m.children + placed.take(i as int));
            }
        }
        self.height = add_len(self.height, self.line_height);
        self.longest_line = max_of(self.longest_line, self.x);
        self.x = 0;
        self.line_height = 0;
        self.line_ascender = 0;
        self.line_items = Vec::new();
        proof {
            assert(placed =~= placed.take(placed.len() as int));
            self.model@ = line_flushed(m);
        }
    }

    /// Places one atomic box item, wrapping first when it would overrun
    /// a non-empty line.
    pub fn insert_block_item(&mut self, index: usize, layout: Rc<LayoutTreeNode>)
        requires
            old(self).inv(),
        ensures
            final(self).inv(),
            final(self).model@ == block_inserted(old(self).model@, index as int, layout),
    {
        let width = layout.size.width;
        let height = layout.size.height;
        if (self.x > self.max_width || width > self.max_width - self.x) && self.line_items.len() > 0 {
            self.carriage_return();
        }
        let ghost m1 = self.model@;
        self.line_items.push(LineItem { x: self.x, ascender: height, index, layout });
        self.x = add_len(self.x, width);
        self.line_height = max_of(self.line_height, height);
        self.line_ascender = max_of(self.line_ascender, height);
        proof {
            self.model@ = LineModel {
                children: m1.children,
                max_width: m1.max_width,
                x: sat_add(m1.x, width as int),
                height: m1.height,
                line_height: max_len(m1.line_height, height as int),
                line_ascender: max_len(m1.line_ascender, height as int),
                longest: m1.longest,
                pending: m1.pending.push(
                    PendingModel {
                        index: index as int,
                        ascender: height as int,
                        x: m1.x,
                        node: ItemNode::Box { node: layout },
                    },
                ),
            };
        }
    }
}


impl LineState {
    /// Works one shaped text run through the line packer, wrapping at
    /// word boundaries; see `text_inserted` for the exact behaviour.
    pub fn insert_text_item(&mut self, gen: &mut IdGen, index: usize, text: &ShapedText)
        requires
            old(self).inv(),
            old(gen).wf(),
        ensures
            final(self).inv(),
            final(self).model@ == text_inserted(old(self).model@, index as int, text@, 0),
            final(gen).wf(),
            crate::tree::map_grows(old(gen).ids(), final(gen).ids()),
    {
        let ghost t = text@;
        let ghost m0 = self.model@;
        let mut offset: usize = 0;
        while offset < text.segments.len()
            invariant
                self.inv(),
                gen.wf(),
                crate::tree::map_grows(old(gen).ids(), gen.ids()),
                offset <= text@.segs.len(),
                t == text@,
                text_inserted(m0, index as int, t, 0) == text_inserted(
                    self.model@,
                    index as int,
                    t,
                    offset as int,
                ),
            decreases text.segments.len() - offset,
        {
            let ghost m_entry = self.model@;
            let ghost o_entry = offset as int;
            proof {
                crate::text::lemma_fit_count_le(t.segs.skip(o_entry), sat_sub(m_entry.max_width, m_entry.x));
                crate::text::lemma_skip_ws_bounds(t.segs, o_entry);
            }
            let remaining = sub_len(self.max_width, self.x);
            let fit1 = text.fill_line(remaining, offset);
            let end = fit1.0;
            let mut width: u64 = fit1.1;
            let mut line_height: u64 = fit1.2;
            let mut ascender: u64 = fit1.3;
            let mut start: usize = offset;
            offset = offset + end;
            if end == 0 {
                self.carriage_return();
                offset = text.advance_past_whitespace(offset);
                start = offset;
                proof {
                    crate::text::lemma_fit_count_le(t.segs.skip(offset as int), m_entry.max_width);
                }
                let fit2 = text.fill_line(self.max_width, offset);
                offset = offset + fit2.0;
                width = fit2.1;
                line_height = fit2.2;
                ascender = fit2.3;
                if fit2.0 == 0 {
                    let fit3 = text.force_fit(offset);
                    offset = offset + fit3.0;
                    width = fit3.1;
                    line_height = fit3.2;
                    ascender = fit3.3;
                }
            }
            let ghost gpre = gen.ids();
            let frag = make_fragment(gen, text, start, offset, width, line_height);
            proof {
                crate::tree::lemma_map_grows_trans(old(gen).ids(), gpre, gen.ids());
            }
            let ghost mcur = self.model@;
            self.line_items.push(LineItem { ascender, index, x: self.x, layout: frag });
            self.x = add_len(self.x, width);
            self.line_height = max_of(self.line_height, line_height);
            self.line_ascender = max_of(self.line_ascender, ascender);
            proof {
                self.model@ = frag_pushed(
                    mcur,
                    index as int,
                    t,
                    start as int,
                    offset as int,
                    width as int,
                    line_height as int,
                    ascender as int,
                );
                assert(text_inserted(m_entry, index as int, t, o_entry) == text_inserted(
                    self.model@,
                    index as int,
                    t,
                    offset as int,
                ));
            }
        }
    }
}


/// One item of flattened inline content: an atomic box (a block-level
/// descendant already laid out) or a shaped text run, each remembering
/// the source child index it came from.
pub enum InlineLayoutItem {
    Block { index: usize, layout: Rc<LayoutTreeNode> },
    Text { index: usize, text: ShapedText },
}

/// The model of one collected item.
pub open spec fn item_model(it: InlineLayoutItem) -> ItemModel {
    match it {
        InlineLayoutItem::Block { index, layout } => ItemModel::Box {
            index: index as int,
            node: layout,
        },
        InlineLayoutItem::Text { index, text } => ItemModel::Text {
            index: index as int,
            t: text@,
        },
    }
}

/// The models of a collected item sequence, in order.
pub open spec fn items_model(s: Seq<InlineLayoutItem>) -> Seq<ItemModel> {
    s.map_values(|it: InlineLayoutItem| item_model(it))
}

/// The line packer folded over the items from `i` on.
pub open spec fn items_inserted(m: LineModel, items: Seq<ItemModel>, i: int) -> LineModel
    decreases items.len() - i,
{
    if i < 0 || i >= items.len() {
        m
    } else {
        let next = match items[i] {
            ItemModel::Box { index, node } => block_inserted(m, index, node),
            ItemModel::Text { index, t } => text_inserted(m, index, t, 0),
        };
        items_inserted(next, items, i + 1)
    }
}

/// What the inline container for the given items and width budget is:
/// the packer is folded over every item, the last line is flushed, and
/// the node reports (longest line, stacked height) with the placed
/// children, no margin and no text of its own.
pub open spec fn is_inline_layout(items: Seq<ItemModel>, max_width: int, r: LayoutTreeNode) -> bool {
    let m = line_flushed(items_inserted(init_line(max_width), items, 0));
    &&& r.size.width == m.longest
    &&& r.size.height == m.height
    &&& r.margin.top == 0 && r.margin.right == 0 && r.margin.bottom == 0 && r.margin.left == 0
    &&& r.render_text is None
    &&& children_match(r.children@, m.children)
}

/// Packs the collected items into lines and builds the inline
/// container node.
pub fn layout_of_items(gen: &mut IdGen, items: Vec<InlineLayoutItem>, max_width: u64) -> (r: Rc<
    LayoutTreeNode,
>)
    requires
        old(gen).wf(),
    ensures
        final(gen).wf(),
        crate::tree::map_grows(old(gen).ids(), final(gen).ids()),
        final(gen).registered(*r),
        is_inline_layout(items_model(items@), max_width as int, *r),
{
    let ghost ms = items_model(items@);
    let mut state = LineState::new(max_width);
    let mut i: usize = 0;
    while i < items.len()
        invariant
            state.inv(),
            gen.wf(),
            crate::tree::map_grows(old(gen).ids(), gen.ids()),
            i <= items.len(),
            ms == items_model(items@),
            items_inserted(init_line(max_width as int), ms, 0) == items_inserted(
                state.model@,
                ms,
                i as int,
            ),
        decreases items.len() - i,
    {
        let ghost gpre = gen.ids();
        match &items[i] {
            InlineLayoutItem::Block { index, layout } => {
                state.insert_block_item(*index, share_node(layout));
            },
            InlineLayoutItem::Text { index, text } => {
                state.insert_text_item(gen, *index, text);
            },
        }
        proof {
            crate::tree::lemma_map_grows_trans(old(gen).ids(), gpre, gen.ids());
            assert(ms[i as int] == item_model(items@[i as int]));
        }
        i = i + 1;
    }
    state.carriage_return();
    let ghost gpre = gen.ids();
    let r = gen.make_node(
        LogicalSize { width: state.longest_line, height: state.height },
        LogicalSideOffsets::zero(),
        None,
        state.children,
    );
    proof {
        crate::tree::lemma_map_grows_trans(old(gen).ids(), gpre, gen.ids());
    }
    r
}

} // verus!

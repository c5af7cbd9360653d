//! Block layout: stacking already-laid-out children along one axis,
//! applying padding and explicit sizing. Margin of each child is folded
//! into its effective size here; the block's own margin is carried on
//! the resulting node for the parent's consumption.

use vstd::prelude::*;
use std::rc::Rc;
use crate::geom::{add_len, max_len, max_of, sat_add, sat_sub, sub_len, LogicalPoint, LogicalSize};
use crate::style::{BlockValues, Direction};
use crate::tree::{share_node, IdGen, LayoutChild, LayoutTreeNode};

verus! {

/// Width of a child together with its left and right margins.
pub open spec fn eff_width(n: Rc<LayoutTreeNode>) -> int {
    sat_add(n.size.width as int, n.margin.spec_horizontal())
}

/// Height of a child together with its top and bottom margins.
pub open spec fn eff_height(n: Rc<LayoutTreeNode>) -> int {
    sat_add(n.size.height as int, n.margin.spec_vertical())
}

/// Margin-inclusive size of a child along the stacking axis.
pub open spec fn main_size(n: Rc<LayoutTreeNode>, dir: Direction) -> int {
    if dir is Vertical {
        eff_height(n)
    } else {
        eff_width(n)
    }
}

/// Margin-inclusive size of a child across the stacking axis.
pub open spec fn cross_size(n: Rc<LayoutTreeNode>, dir: Direction) -> int {
    if dir is Vertical {
        eff_width(n)
    } else {
        eff_height(n)
    }
}

/// Main-axis extent of the first `i` children: the saturating sum of
/// their margin-inclusive sizes along the stacking axis.
pub open spec fn stacked_extent(childs: Seq<Rc<LayoutTreeNode>>, dir: Direction, i: int) -> int
    decreases i,
{
    if i <= 0 {
        0
    } else {
        sat_add(stacked_extent(childs, dir, i - 1), main_size(childs[i - 1], dir))
    }
}

/// Cross-axis extent of the first `i` children: the largest
/// margin-inclusive size across the stacking axis.
pub open spec fn cross_extent(childs: Seq<Rc<LayoutTreeNode>>, dir: Direction, i: int) -> int
    decreases i,
{
    if i <= 0 {
        0
    } else {
        max_len(cross_extent(childs, dir, i - 1), cross_size(childs[i - 1], dir))
    }
}

/// The position the stacking pass assigns to child `i`: padding plus
/// the extent of the children placed before it along the main axis.
pub open spec fn block_child_pos(values: BlockValues, childs: Seq<Rc<LayoutTreeNode>>, i: int) -> LogicalPoint {
    if values.direction is Vertical {
        LogicalPoint {
            x: values.padding.left,
            y: sat_add(stacked_extent(childs, values.direction, i), values.padding.top as int) as u64,
        }
    } else {
        LogicalPoint {
            x: sat_add(stacked_extent(childs, values.direction, i), values.padding.left as int) as u64,
            y: values.padding.top,
        }
    }
}

/// The size a block reports: content size plus padding on both axes,
/// each axis overridden unconditionally by an explicit width or height.
pub open spec fn block_size(values: BlockValues, childs: Seq<Rc<LayoutTreeNode>>) -> LogicalSize {
    let main = stacked_extent(childs, values.direction, childs.len() as int);
    let cross = cross_extent(childs, values.direction, childs.len() as int);
    let content_w = if values.direction is Vertical { cross } else { main };
    let content_h = if values.direction is Vertical { main } else { cross };
    LogicalSize {
        width: match values.width {
            Some(w) => w,
            None => sat_add(content_w, values.padding.spec_horizontal()) as u64,
        },
        height: match values.height {
            Some(h) => h,
            None => sat_add(content_h, values.padding.spec_vertical()) as u64,
        },
    }
}

/// Everything `calc_block_layout` promises of its result, except the
/// identity handle: sizes, margin, and one positioned child per input
/// child, in order.
pub open spec fn is_block_layout(values: BlockValues, childs: Seq<Rc<LayoutTreeNode>>, r: LayoutTreeNode) -> bool {
    &&& r.size == block_size(values, childs)
    &&& r.margin == values.margin
    &&& r.render_text is None
    &&& r.children@.len() == childs.len()
    &&& forall|i: int|
        0 <= i < childs.len() ==> {
            &&& (#[trigger] r.children@[i]).index == i
            &&& r.children@[i].position == block_child_pos(values, childs, i)
            &&& r.children@[i].layout == childs[i]
        }
}

/// Plain, non-saturating sum of the margin-inclusive main-axis sizes of
/// the first `i` children.
pub open spec fn sum_main(childs: Seq<Rc<LayoutTreeNode>>, dir: Direction, i: int) -> int
    decreases i,
{
    if i <= 0 {
        0
    } else {
        sum_main(childs, dir, i - 1) + main_size(childs[i - 1], dir)
    }
}

/// Prefix sums of main-axis sizes grow with the prefix.
pub proof fn lemma_sum_main_mono(childs: Seq<Rc<LayoutTreeNode>>, dir: Direction, i: int, j: int)
    requires
        i <= j,
    ensures
        sum_main(childs, dir, i) <= sum_main(childs, dir, j),
    decreases j - i,
{
    if i < j {
        lemma_sum_main_mono(childs, dir, i, j - 1);
    }
}

/// While the plain sum stays representable, the saturating stacked
/// extent equals it.
pub proof fn lemma_stacked_no_sat(childs: Seq<Rc<LayoutTreeNode>>, dir: Direction, i: int)
    requires
        sum_main(childs, dir, i) <= u64::MAX,
    ensures
        stacked_extent(childs, dir, i) == sum_main(childs, dir, i),
    decreases i,
{
    if i > 0 {
        lemma_stacked_no_sat(childs, dir, i - 1);
    }
}

/// A vertical block without an explicit height reports the sum of its
/// children's margin-inclusive heights plus its vertical padding, and
/// stacks the children at non-overlapping offsets that grow by exactly
/// one margin-inclusive height per child — strictly, when that height
/// is positive. Holds whenever the summed heights and padding fit in a
/// length.
#[verifier::rlimit(50)]
pub proof fn lemma_vertical_stacking(values: BlockValues, childs: Seq<Rc<LayoutTreeNode>>, r: LayoutTreeNode)
    requires
        is_block_layout(values, childs, r),
        values.direction is Vertical,
        values.height is None,
        sum_main(childs, values.direction, childs.len() as int) + values.padding.spec_vertical() <= u64::MAX,
    ensures
        r.size.height == sum_main(childs, values.direction, childs.len() as int) + values.padding.spec_vertical(),
        forall|i: int|
            0 <= i < childs.len() ==> (#[trigger] r.children@[i]).position.y
                == values.padding.top + sum_main(childs, values.direction, i),
        forall|i: int|
            0 <= i < childs.len() - 1 ==> (#[trigger] r.children@[i + 1]).position.y
                == r.children@[i].position.y + main_size(childs[i], values.direction),
        forall|i: int|
            0 <= i < childs.len() - 1 ==> (#[trigger] r.children@[i]).position.y + childs[i].size.height
                <= r.children@[i + 1].position.y,
        forall|i: int|
            0 <= i < childs.len() - 1 && main_size(childs[i], values.direction) > 0
                ==> (#[trigger] r.children@[i]).position.y < r.children@[i + 1].position.y,
{
    let dir = values.direction;
    let n = childs.len() as int;
    assert(values.padding.spec_vertical() >= values.padding.top);
    lemma_stacked_no_sat(childs, dir, n);
    lemma_sum_main_mono(childs, dir, 0, n);
    assert(r.size == block_size(values, childs));
    assert(r.size.height == sat_add(sum_main(childs, dir, n), values.padding.spec_vertical()) as u64);
    assert forall|i: int| 0 <= i < childs.len() implies (#[trigger] r.children@[i]).position.y
        == values.padding.top + sum_main(childs, dir, i) by {
        lemma_sum_main_mono(childs, dir, i, n);
        lemma_sum_main_mono(childs, dir, 0, i);
        lemma_stacked_no_sat(childs, dir, i);
        assert(r.children@[i].position == block_child_pos(values, childs, i));
    }
    assert forall|i: int| 0 <= i < childs.len() - 1 implies (#[trigger] r.children@[i + 1]).position.y
        == r.children@[i].position.y + main_size(childs[i], dir) by {
        assert(r.children@[i].position.y == values.padding.top + sum_main(childs, dir, i));
        assert(r.children@[i + 1].position.y == values.padding.top + sum_main(childs, dir, i + 1));
    }
    assert forall|i: int| 0 <= i < childs.len() - 1 implies (#[trigger] r.children@[i]).position.y
        + childs[i].size.height <= r.children@[i + 1].position.y by {
        assert(r.children@[i + 1].position.y == r.children@[i].position.y + main_size(childs[i], dir));
        assert(main_size(childs[i], dir) >= childs[i].size.height);
    }
}

/// The horizontal counterpart: a horizontal block without an explicit
/// width reports the sum of its children's margin-inclusive widths plus
/// its horizontal padding, and advances the x-offsets the same way.
#[verifier::rlimit(50)]
pub proof fn lemma_horizontal_stacking(values: BlockValues, childs: Seq<Rc<LayoutTreeNode>>, r: LayoutTreeNode)
    requires
        is_block_layout(values, childs, r),
        values.direction is Horizontal,
        values.width is None,
        sum_main(childs, values.direction, childs.len() as int) + values.padding.spec_horizontal() <= u64::MAX,
    ensures
        r.size.width == sum_main(childs, values.direction, childs.len() as int) + values.padding.spec_horizontal(),
        forall|i: int|
            0 <= i < childs.len() ==> (#[trigger] r.children@[i]).position.x
                == values.padding.left + sum_main(childs, values.direction, i),
        forall|i: int|
            0 <= i < childs.len() - 1 ==> (#[trigger] r.children@[i + 1]).position.x
                == r.children@[i].position.x + main_size(childs[i], values.direction),
        forall|i: int|
            0 <= i < childs.len() - 1 ==> (#[trigger] r.children@[i]).position.x + childs[i].size.width
                <= r.children@[i + 1].position.x,
        forall|i: int|
            0 <= i < childs.len() - 1 && main_size(childs[i], values.direction) > 0
                ==> (#[trigger] r.children@[i]).position.x < r.children@[i + 1].position.x,
{
    let dir = values.direction;
    let n = childs.len() as int;
    assert(values.padding.spec_horizontal() >= values.padding.left);
    lemma_stacked_no_sat(childs, dir, n);
    lemma_sum_main_mono(childs, dir, 0, n);
    assert(r.size == block_size(values, childs));
    assert(r.size.width == sat_add(sum_main(childs, dir, n), values.padding.spec_horizontal()) as u64);
    assert forall|i: int| 0 <= i < childs.len() implies (#[trigger] r.children@[i]).position.x
        == values.padding.left + sum_main(childs, dir, i) by {
        lemma_sum_main_mono(childs, dir, i, n);
        lemma_sum_main_mono(childs, dir, 0, i);
        lemma_stacked_no_sat(childs, dir, i);
        assert(r.children@[i].position == block_child_pos(values, childs, i));
    }
    assert forall|i: int| 0 <= i < childs.len() - 1 implies (#[trigger] r.children@[i + 1]).position.x
        == r.children@[i].position.x + main_size(childs[i], dir) by {
        assert(r.children@[i].position.x == values.padding.left + sum_main(childs, dir, i));
        assert(r.children@[i + 1].position.x == values.padding.left + sum_main(childs, dir, i + 1));
    }
    assert forall|i: int| 0 <= i < childs.len() - 1 implies (#[trigger] r.children@[i]).position.x
        + childs[i].size.width <= r.children@[i + 1].position.x by {
        assert(r.children@[i + 1].position.x == r.children@[i].position.x + main_size(childs[i], dir));
        assert(main_size(childs[i], dir) >= childs[i].size.width);
    }
}

/// Explicit dimensions win unconditionally: the block reports exactly
/// the explicit size, while its children keep the positions the
/// stacking algorithm gave them and may overflow the box.
pub proof fn lemma_explicit_size(values: BlockValues, childs: Seq<Rc<LayoutTreeNode>>, r: LayoutTreeNode)
    requires
        is_block_layout(values, childs, r),
        values.width is Some,
        values.height is Some,
    ensures
        Some(r.size.width) == values.width,
        Some(r.size.height) == values.height,
        forall|i: int|
            0 <= i < childs.len() ==> (#[trigger] r.children@[i]).position
                == block_child_pos(values, childs, i),
{
}

/// The content box offered to a block's children: the parent's size,
/// overridden by the block's explicit dimensions, minus its padding
/// (clamped at zero where the padding does not fit).
pub open spec fn spec_max_size(values: BlockValues, parent_size: LogicalSize) -> LogicalSize {
    let outer_w = match values.width {
        Some(w) => w as int,
        None => parent_size.width as int,
    };
    let outer_h = match values.height {
        Some(h) => h as int,
        None => parent_size.height as int,
    };
    LogicalSize {
        width: sat_sub(outer_w, values.padding.spec_horizontal()) as u64,
        height: sat_sub(outer_h, values.padding.spec_vertical()) as u64,
    }
}

/// Computes the content box offered to a block's children.
pub fn calc_max_size(values: &BlockValues, parent_size: LogicalSize) -> (r: LogicalSize)
    ensures
        r == spec_max_size(*values, parent_size),
{
    let outer_w = match values.width {
        Some(w) => w,
        None => parent_size.width,
    };
    let outer_h = match values.height {
        Some(h) => h,
        None => parent_size.height,
    };
    LogicalSize {
        width: sub_len(outer_w, values.padding.horizontal()),
        height: sub_len(outer_h, values.padding.vertical()),
    }
}

/// Stacks `children` along the block's axis and builds the resulting
/// node under a fresh identity handle. Apart from that handle, the
/// result is a pure function of the inputs.
pub fn calc_block_layout(gen: &mut IdGen, values: &BlockValues, children: Vec<Rc<LayoutTreeNode>>) -> (r: Rc<LayoutTreeNode>)
    requires
        old(gen).wf(),
    ensures
        final(gen).wf(),
        old(gen).ids().submap_of(final(gen).ids()),
        final(gen).registered(*r),
        is_block_layout(*values, children@, *r),
        r.children@.len() == children@.len(),
{
    let ghost childs = children@;
    let vertical = match values.direction {
        Direction::Vertical => true,
        Direction::Horizontal => false,
    };
    let mut main: u64 = 0;
    let mut cross: u64 = 0;
    let mut child_positions: Vec<LayoutChild> = Vec::new();
    let mut idx: usize = 0;
    while idx < children.len()
        invariant
            idx <= children.len(),
            childs == children@,
            vertical == (values.direction is Vertical),
            main == stacked_extent(childs, values.direction, idx as int),
            cross == cross_extent(childs, values.direction, idx as int),
            child_positions@.len() == idx,
            forall|i: int|
                0 <= i < idx ==> {
                    &&& (#[trigger] child_positions@[i]).index == i
                    &&& child_positions@[i].position == block_child_pos(*values, childs, i)
                    &&& child_positions@[i].layout == childs[i]
                },
        decreases children.len() - idx,
    {
        let child = share_node(&children[idx]);
        let width_with_margin = add_len(child.size.width, child.margin.horizontal());
        let height_with_margin = add_len(child.size.height, child.margin.vertical());
        let position = if vertical {
            LogicalPoint { x: values.padding.left, y: add_len(main, values.padding.top) }
        } else {
            LogicalPoint { x: add_len(main, values.padding.left), y: values.padding.top }
        };
        child_positions.push(LayoutChild { index: idx, position, layout: child });
        if vertical {
            main = add_len(main, height_with_margin);
            cross = max_of(cross, width_with_margin);
        } else {
            main = add_len(main, width_with_margin);
            cross = max_of(cross, height_with_margin);
        }
        idx = idx + 1;
    }
    let content_w = if vertical { cross } else { main };
    let content_h = if vertical { main } else { cross };
    let size = LogicalSize {
        width: match values.width {
            Some(w) => w,
            None => add_len(content_w, values.padding.horizontal()),
        },
        height: match values.height {
            Some(h) => h,
            None => add_len(content_h, values.padding.vertical()),
        },
    };
    gen.make_node(size, values.margin, None, child_positions)
}

} // verus!

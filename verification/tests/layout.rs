use std::rc::Rc;

use layout_engine::engine::{DomChild, Element, LayoutEngine};
use layout_engine::geom::{LogicalSideOffsets, LogicalSize};
use layout_engine::inline::{layout_of_items, InlineLayoutItem};
use layout_engine::style::{BlockValues, ComputedValues, Direction, DisplayType};
use layout_engine::text::{ShapedSegment, ShapedText};
use layout_engine::tree::{IdGen, LayoutTreeNode};
use layout_engine::windows::{plan_window_updates, WindowAction};

fn seg(text: &str, width: u64, whitespace: bool) -> ShapedSegment {
    ShapedSegment {
        text: text.to_string(),
        width,
        height: 10,
        ascent: 8,
        whitespace,
    }
}

// A stub shaping service: word widths The=30, quick=35, brown=40,
// fox=20, and 5-unit space advances; line height 10, ascent 8.
fn the_quick_brown_fox() -> ShapedText {
    ShapedText {
        segments: vec![
            seg("The", 30, false),
            seg(" ", 5, true),
            seg("quick", 35, false),
            seg(" ", 5, true),
            seg("brown", 40, false),
            seg(" ", 5, true),
            seg("fox", 20, false),
        ],
        size: 16,
    }
}

fn block_values(dir: Direction, width: Option<u64>, height: Option<u64>) -> BlockValues {
    BlockValues {
        direction: dir,
        width,
        height,
        margin: LogicalSideOffsets::new(0, 0, 0, 0),
        padding: LogicalSideOffsets::new(0, 0, 0, 0),
    }
}

fn leaf_block(key: u64, width: u64, height: u64) -> Element {
    Element {
        key,
        values: ComputedValues {
            display: DisplayType::Block(block_values(Direction::Vertical, Some(width), Some(height))),
            text_size: 16,
        },
        children: vec![],
    }
}

fn block_elem(key: u64, values: BlockValues, children: Vec<DomChild>) -> Element {
    Element {
        key,
        values: ComputedValues { display: DisplayType::Block(values), text_size: 16 },
        children,
    }
}

fn render_text_of(node: &Rc<LayoutTreeNode>) -> String {
    node.render_text.as_ref().expect("text payload").text.clone()
}

#[test]
fn fill_line_fits_exactly_seventy() {
    let text = the_quick_brown_fox();
    let (end, width, height, ascent) = text.fill_line(70, 0);
    // "The" + " " + "quick" = 30 + 5 + 35 = 70, fits exactly.
    assert_eq!(end, 3);
    assert_eq!(width, 70);
    assert_eq!(height, 10);
    assert_eq!(ascent, 8);
}

#[test]
fn fill_line_zero_when_first_word_too_wide() {
    let text = the_quick_brown_fox();
    let (end, width, _, _) = text.fill_line(20, 0);
    assert_eq!(end, 0);
    assert_eq!(width, 0);
}

#[test]
fn fill_line_restart_matches_truncated_text() {
    let text = the_quick_brown_fox();
    // Fit the full text, then refit from the consumed offset: the result
    // must equal fitting the text with the earlier portion discarded.
    let (end, _, _, _) = text.fill_line(70, 0);
    assert_eq!(end, 3);
    let from_offset = text.fill_line(70, 4);
    let truncated = ShapedText {
        segments: text.segments[4..].to_vec(),
        size: 16,
    };
    let from_zero = truncated.fill_line(70, 0);
    assert_eq!(from_offset, from_zero);
    // And from every other valid offset as well.
    for offset in 0..=text.segments.len() {
        let tail = ShapedText { segments: text.segments[offset..].to_vec(), size: 16 };
        assert_eq!(text.fill_line(47, offset), tail.fill_line(47, 0));
    }
}

#[test]
fn advance_past_whitespace_skips_separator() {
    let text = the_quick_brown_fox();
    assert_eq!(text.advance_past_whitespace(0), 0);
    assert_eq!(text.advance_past_whitespace(1), 2);
    assert_eq!(text.advance_past_whitespace(7), 7);
}

#[test]
fn quick_brown_fox_wraps_at_seventy() {
    // Line width 70: line 1 = "The quick" (width 70), line 2 =
    // "brown fox" (40 + 5 + 20 = 65); the second line starts one line
    // height below the first.
    let mut gen = IdGen::new();
    let items = vec![InlineLayoutItem::Text { index: 0, text: the_quick_brown_fox() }];
    let node = layout_of_items(&mut gen, items, 70);
    assert_eq!(node.size.width, 70);
    assert_eq!(node.size.height, 20);
    assert_eq!(node.children.len(), 2);
    let first = &node.children[0];
    let second = &node.children[1];
    assert_eq!(render_text_of(&first.layout), "The quick");
    assert_eq!(first.layout.size.width, 70);
    assert_eq!((first.position.x, first.position.y), (0, 0));
    assert_eq!(render_text_of(&second.layout), "brown fox");
    assert_eq!(second.layout.size.width, 65);
    assert_eq!(second.position.x, 0);
    assert_eq!(second.position.y, first.layout.size.height);
}

#[test]
fn oversized_word_overflows_alone() {
    // A single word wider than the line: placed alone, the line exceeds
    // the nominal width, and the rest of the text resumes below.
    let text = ShapedText {
        segments: vec![seg("wide", 50, false), seg(" ", 5, true), seg("a", 5, false)],
        size: 16,
    };
    let mut gen = IdGen::new();
    let items = vec![InlineLayoutItem::Text { index: 0, text }];
    let node = layout_of_items(&mut gen, items, 10);
    assert_eq!(node.children.len(), 2);
    assert_eq!(render_text_of(&node.children[0].layout), "wide");
    assert_eq!(node.children[0].layout.size.width, 50);
    assert!(node.size.width > 10);
    assert_eq!((node.children[0].position.x, node.children[0].position.y), (0, 0));
    assert_eq!(render_text_of(&node.children[1].layout), "a");
    assert_eq!(node.children[1].position.y, 10);
}

#[test]
fn oversized_word_only() {
    let text = ShapedText { segments: vec![seg("wide", 50, false)], size: 16 };
    let mut gen = IdGen::new();
    let items = vec![InlineLayoutItem::Text { index: 0, text }];
    let node = layout_of_items(&mut gen, items, 10);
    assert_eq!(node.size.width, 50);
    assert_eq!(node.size.height, 10);
    assert_eq!(node.children.len(), 1);
}

#[test]
fn inline_mixes_boxes_and_text() {
    // An atomic box and a text run on one line, baseline-aligned: the
    // box (ascent = its full height 10) sits at the top, the text
    // (ascent 8) two units below.
    let mut engine = LayoutEngine::new();
    let fox = ShapedText { segments: vec![seg("fox", 20, false)], size: 16 };
    let root = Element {
        key: 1,
        values: ComputedValues { display: DisplayType::Inline, text_size: 16 },
        children: vec![
            DomChild::Node(leaf_block(2, 30, 10)),
            DomChild::Text(fox),
        ],
    };
    let node = engine.layout(&root, LogicalSize::new(70, 100));
    assert_eq!(node.size.width, 50);
    assert_eq!(node.size.height, 10);
    assert_eq!(node.children.len(), 2);
    assert_eq!((node.children[0].position.x, node.children[0].position.y), (0, 0));
    assert_eq!(node.children[0].index, 0);
    assert_eq!((node.children[1].position.x, node.children[1].position.y), (30, 2));
    assert_eq!(node.children[1].index, 1);
}

#[test]
fn nested_inline_is_flattened() {
    // A nested inline element's content joins the same line sequence;
    // its own box never materializes.
    let mut engine = LayoutEngine::new();
    let inner = Element {
        key: 2,
        values: ComputedValues { display: DisplayType::Inline, text_size: 16 },
        children: vec![DomChild::Text(the_quick_brown_fox())],
    };
    let root = Element {
        key: 1,
        values: ComputedValues { display: DisplayType::Inline, text_size: 16 },
        children: vec![DomChild::Node(inner)],
    };
    let node = engine.layout(&root, LogicalSize::new(70, 100));
    assert_eq!(node.size.width, 70);
    assert_eq!(node.size.height, 20);
    assert_eq!(node.children.len(), 2);
    assert_eq!(render_text_of(&node.children[0].layout), "The quick");
}

#[test]
fn vertical_block_stacks_heights() {
    // Children of heights 30 and 50: content height is their sum plus
    // padding; the offsets grow strictly and do not overlap.
    let mut engine = LayoutEngine::new();
    let padding = LogicalSideOffsets::new(2, 0, 4, 3);
    let values = BlockValues {
        direction: Direction::Vertical,
        width: None,
        height: None,
        margin: LogicalSideOffsets::new(0, 0, 0, 0),
        padding,
    };
    let root = block_elem(
        1,
        values,
        vec![
            DomChild::Node(leaf_block(2, 40, 30)),
            DomChild::Node(leaf_block(3, 20, 50)),
        ],
    );
    let node = engine.layout(&root, LogicalSize::new(500, 500));
    assert_eq!(node.size.height, 30 + 50 + 2 + 4);
    assert_eq!(node.size.width, 40 + 3);
    let y0 = node.children[0].position.y;
    let y1 = node.children[1].position.y;
    assert_eq!(y0, 2);
    assert_eq!(y1, 2 + 30);
    assert!(y0 < y1);
    assert!(y0 + node.children[0].layout.size.height <= y1);
    assert_eq!(node.children[0].position.x, 3);
    assert_eq!(node.children[1].position.x, 3);
}

#[test]
fn horizontal_block_stacks_widths() {
    let mut engine = LayoutEngine::new();
    let padding = LogicalSideOffsets::new(2, 0, 0, 3);
    let values = BlockValues {
        direction: Direction::Horizontal,
        width: None,
        height: None,
        margin: LogicalSideOffsets::new(0, 0, 0, 0),
        padding,
    };
    let root = block_elem(
        1,
        values,
        vec![
            DomChild::Node(leaf_block(2, 40, 30)),
            DomChild::Node(leaf_block(3, 20, 50)),
        ],
    );
    let node = engine.layout(&root, LogicalSize::new(500, 500));
    assert_eq!(node.size.width, 40 + 20 + 3);
    assert_eq!(node.size.height, 50 + 2);
    let x0 = node.children[0].position.x;
    let x1 = node.children[1].position.x;
    assert_eq!(x0, 3);
    assert_eq!(x1, 3 + 40);
    assert!(x0 + node.children[0].layout.size.width <= x1);
    assert_eq!(node.children[0].position.y, 2);
    assert_eq!(node.children[1].position.y, 2);
}

#[test]
fn margins_widen_effective_child_size() {
    let mut engine = LayoutEngine::new();
    let mut child = leaf_block(2, 10, 10);
    if let DisplayType::Block(ref mut b) = child.values.display {
        b.margin = LogicalSideOffsets::new(1, 2, 3, 4);
    }
    let root = block_elem(
        1,
        block_values(Direction::Vertical, None, None),
        vec![DomChild::Node(child)],
    );
    let node = engine.layout(&root, LogicalSize::new(500, 500));
    // Margin joins the child's effective size: 10 + 1 + 3 high, 10 + 2 + 4 wide.
    assert_eq!(node.size.height, 14);
    assert_eq!(node.size.width, 16);
    // The margin is carried on the child node, not applied to its own size.
    assert_eq!(node.children[0].layout.size.height, 10);
}

#[test]
fn explicit_size_wins_and_children_overflow() {
    // Explicit width 200 / height 100 with a larger child: the reported
    // size is exactly (200, 100); the child keeps its stacked position.
    let mut engine = LayoutEngine::new();
    let root = block_elem(
        1,
        block_values(Direction::Vertical, Some(200), Some(100)),
        vec![DomChild::Node(leaf_block(2, 300, 400))],
    );
    let node = engine.layout(&root, LogicalSize::new(500, 500));
    assert_eq!(node.size.width, 200);
    assert_eq!(node.size.height, 100);
    assert_eq!(node.children.len(), 1);
    assert_eq!((node.children[0].position.x, node.children[0].position.y), (0, 0));
    assert_eq!(node.children[0].layout.size.height, 400);
}

#[test]
fn text_leaf_in_block_is_measured_whole() {
    let mut engine = LayoutEngine::new();
    let root = block_elem(
        1,
        block_values(Direction::Vertical, None, None),
        vec![DomChild::Text(the_quick_brown_fox())],
    );
    let node = engine.layout(&root, LogicalSize::new(500, 500));
    assert_eq!(node.children.len(), 1);
    let text_node = &node.children[0].layout;
    assert_eq!(render_text_of(text_node), "The quick brown fox");
    assert_eq!(text_node.size.width, 140);
    assert_eq!(text_node.size.height, 10);
}

#[test]
fn memoization_returns_same_node() {
    // The same block laid out twice, with identical style and identical
    // (by identity) child results, is the same node both times.
    let mut engine = LayoutEngine::new();
    let root = block_elem(
        1,
        block_values(Direction::Vertical, None, None),
        vec![
            DomChild::Node(leaf_block(2, 40, 30)),
            DomChild::Node(leaf_block(3, 20, 50)),
        ],
    );
    let first = engine.layout(&root, LogicalSize::new(500, 500));
    let second = engine.layout(&root, LogicalSize::new(500, 500));
    assert!(Rc::ptr_eq(&first, &second));
    assert!(Rc::ptr_eq(&first.children[0].layout, &second.children[0].layout));
}

#[test]
fn changed_sibling_keeps_untouched_subtree() {
    // Changing one sibling's content must not change the returned
    // reference for an untouched, independent subtree.
    let mut engine = LayoutEngine::new();
    let sibling_a = |w: u64| {
        DomChild::Node(block_elem(
            2,
            block_values(Direction::Vertical, Some(w), Some(10)),
            vec![],
        ))
    };
    let sibling_b = DomChild::Node(leaf_block(3, 20, 50));
    let root1 = block_elem(
        1,
        block_values(Direction::Vertical, None, None),
        vec![sibling_a(40), sibling_b],
    );
    let first = engine.layout(&root1, LogicalSize::new(500, 500));
    let sibling_b2 = DomChild::Node(leaf_block(3, 20, 50));
    let root2 = block_elem(
        1,
        block_values(Direction::Vertical, None, None),
        vec![sibling_a(60), sibling_b2],
    );
    let second = engine.layout(&root2, LogicalSize::new(500, 500));
    // The changed sibling is fresh, so the parent is recomputed...
    assert!(!Rc::ptr_eq(&first, &second));
    assert!(!Rc::ptr_eq(&first.children[0].layout, &second.children[0].layout));
    // ...but the untouched subtree keeps its node.
    assert!(Rc::ptr_eq(&first.children[1].layout, &second.children[1].layout));
}

#[test]
fn calc_max_size_subtracts_padding() {
    let values = BlockValues {
        direction: Direction::Vertical,
        width: Some(100),
        height: None,
        margin: LogicalSideOffsets::new(0, 0, 0, 0),
        padding: LogicalSideOffsets::new(5, 10, 5, 10),
    };
    let r = layout_engine::block::calc_max_size(&values, LogicalSize::new(400, 300));
    assert_eq!(r.width, 100 - 20);
    assert_eq!(r.height, 300 - 10);
}

#[test]
fn window_plan_updates_creates_and_removes() {
    let existing: Vec<u64> = vec![11, 12, 13];
    let plan = plan_window_updates(2, &existing);
    assert_eq!(plan.len(), 3);
    assert!(matches!(plan[0], WindowAction::Update { slot: 0, window: 11 }));
    assert!(matches!(plan[1], WindowAction::Update { slot: 1, window: 12 }));
    assert!(matches!(plan[2], WindowAction::Remove { window: 13 }));

    let plan = plan_window_updates(3, &vec![21]);
    assert_eq!(plan.len(), 3);
    assert!(matches!(plan[0], WindowAction::Update { slot: 0, window: 21 }));
    assert!(matches!(plan[1], WindowAction::Create { slot: 1 }));
    assert!(matches!(plan[2], WindowAction::Create { slot: 2 }));
}

#[test]
fn duplicate_preserves_text_and_measurements() {
    let text = the_quick_brown_fox();
    let copy = text.duplicate();
    assert_eq!(copy.size, text.size);
    assert_eq!(copy.segments.len(), text.segments.len());
    for (a, b) in copy.segments.iter().zip(text.segments.iter()) {
        assert_eq!(a.text, b.text);
        assert_eq!(a.width, b.width);
        assert_eq!(a.height, b.height);
        assert_eq!(a.ascent, b.ascent);
        assert_eq!(a.whitespace, b.whitespace);
    }
}

#[test]
fn block_inside_inline_inside_block() {
    // A block whose child is inline content that itself carries an
    // atomic block: the inner block is laid out, joins the line as one
    // box, and the outer block stacks the resulting inline container.
    let mut engine = LayoutEngine::new();
    let inline_child = Element {
        key: 2,
        values: ComputedValues { display: DisplayType::Inline, text_size: 16 },
        children: vec![
            DomChild::Node(leaf_block(3, 30, 10)),
            DomChild::Text(ShapedText { segments: vec![seg("fox", 20, false)], size: 16 }),
        ],
    };
    let root = block_elem(
        1,
        block_values(Direction::Vertical, None, None),
        vec![DomChild::Node(inline_child)],
    );
    let node = engine.layout(&root, LogicalSize::new(70, 100));
    assert_eq!(node.children.len(), 1);
    let inline_node = &node.children[0].layout;
    assert_eq!(inline_node.size.width, 50);
    assert_eq!(inline_node.size.height, 10);
    assert_eq!(inline_node.children.len(), 2);
    assert_eq!(inline_node.children[0].layout.size.width, 30);
    assert_eq!(render_text_of(&inline_node.children[1].layout), "fox");
    assert_eq!(node.size.height, 10);
    assert_eq!(node.size.width, 50);
}

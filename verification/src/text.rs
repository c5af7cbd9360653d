//! Greedy word-based text fitting. A piece of text arrives here already
//! shaped: split at word boundaries into segments, each carrying the
//! characters it covers, the summed advance of its glyphs, and the line
//! height and ascent of the font metrics that shaped it. The fitter
//! finds the longest run of whole segments from a given offset whose
//! summed advances stay within a width budget.

use vstd::prelude::*;
use crate::geom::{max_len, max_of};

verus! {

/// One word-break segment of shaped text: either a word or a run of
/// whitespace, with its measured advance and font metrics.
#[derive(Clone, Debug)]
pub struct ShapedSegment {
    /// The characters this segment covers.
    pub text: String,
    /// Summed glyph advances, in logical pixels.
    pub width: u64,
    /// Line height (ascent minus descent) of the shaping font, scaled to the text size.
    pub height: u64,
    /// Ascent of the shaping font, scaled to the text size.
    pub ascent: u64,
    /// Whether the segment is whitespace, skippable after a line wrap.
    pub whitespace: bool,
}

/// Mathematical model of one shaped segment.
pub ghost struct SegModel {
    pub text: Seq<char>,
    pub width: int,
    pub height: int,
    pub ascent: int,
    pub whitespace: bool,
}

impl View for ShapedSegment {
    type V = SegModel;

    open spec fn view(&self) -> SegModel {
        SegModel {
            text: self.text@,
            width: self.width as int,
            height: self.height as int,
            ascent: self.ascent as int,
            whitespace: self.whitespace,
        }
    }
}

/// A whole text leaf after shaping: its segments in source order and
/// the text size it was shaped at.
#[derive(Clone, Debug)]
pub struct ShapedText {
    pub segments: Vec<ShapedSegment>,
    /// The text size, in logical pixels, kept for the rendered payload.
    pub size: u64,
}

/// Mathematical model of a shaped text leaf.
pub ghost struct ShapedTextModel {
    pub segs: Seq<SegModel>,
    pub size: int,
}

impl View for ShapedText {
    type V = ShapedTextModel;

    open spec fn view(&self) -> ShapedTextModel {
        ShapedTextModel {
            segs: self.segments@.map_values(|s: ShapedSegment| s@),
            size: self.size as int,
        }
    }
}

/// How many segments the greedy fitter commits against `budget`: segments
/// are taken in order while the running sum of widths stays within it.
pub open spec fn fit_count(segs: Seq<SegModel>, budget: int) -> nat
    decreases segs.len(),
{
    if segs.len() == 0 || segs[0].width > budget {
        0
    } else {
        1 + fit_count(segs.skip(1), budget - segs[0].width)
    }
}

/// Summed width of the committed segments.
pub open spec fn fit_width(segs: Seq<SegModel>, budget: int) -> int
    decreases segs.len(),
{
    if segs.len() == 0 || segs[0].width > budget {
        0
    } else {
        segs[0].width + fit_width(segs.skip(1), budget - segs[0].width)
    }
}

/// Largest line height among the committed segments, zero if none commit.
pub open spec fn fit_height(segs: Seq<SegModel>, budget: int) -> int
    decreases segs.len(),
{
    if segs.len() == 0 || segs[0].width > budget {
        0
    } else {
        max_len(segs[0].height, fit_height(segs.skip(1), budget - segs[0].width))
    }
}

/// Largest ascent among the committed segments, zero if none commit.
pub open spec fn fit_ascent(segs: Seq<SegModel>, budget: int) -> int
    decreases segs.len(),
{
    if segs.len() == 0 || segs[0].width > budget {
        0
    } else {
        max_len(segs[0].ascent, fit_ascent(segs.skip(1), budget - segs[0].width))
    }
}

/// The first offset at or after `offset` that does not hold whitespace,
/// or the end of the text.
pub open spec fn skip_ws(segs: Seq<SegModel>, offset: int) -> int
    decreases segs.len() - offset,
{
    if offset < 0 || offset >= segs.len() {
        offset
    } else if segs[offset].whitespace {
        skip_ws(segs, offset + 1)
    } else {
        offset
    }
}

/// Every measurement of a shaped segment is non-negative.
pub open spec fn segs_wf(segs: Seq<SegModel>) -> bool {
    forall|i: int|
        0 <= i < segs.len() ==> segs[i].width >= 0 && segs[i].height >= 0 && segs[i].ascent >= 0
}

/// The committed width never exceeds a non-negative budget, and the
/// committed count never runs past the end of the text.
pub proof fn lemma_fit_bounds(segs: Seq<SegModel>, budget: int)
    requires
        budget >= 0,
        segs_wf(segs),
    ensures
        0 <= fit_width(segs, budget) <= budget,
        fit_count(segs, budget) <= segs.len(),
    decreases segs.len(),
{
    if segs.len() == 0 || segs[0].width > budget {
    } else {
        assert(segs_wf(segs.skip(1)));
        lemma_fit_bounds(segs.skip(1), budget - segs[0].width);
    }
}

/// The fitter never commits more segments than there are.
pub proof fn lemma_fit_count_le(segs: Seq<SegModel>, budget: int)
    ensures
        fit_count(segs, budget) <= segs.len(),
    decreases segs.len(),
{
    if !(segs.len() == 0 || segs[0].width > budget) {
        lemma_fit_count_le(segs.skip(1), budget - segs[0].width);
    }
}

/// Skipping whitespace moves forward, stays inside the text, and stops
/// on the first segment that is not whitespace.
pub proof fn lemma_skip_ws_bounds(segs: Seq<SegModel>, offset: int)
    requires
        0 <= offset <= segs.len(),
    ensures
        offset <= skip_ws(segs, offset) <= segs.len(),
        skip_ws(segs, offset) < segs.len() ==> !segs[skip_ws(segs, offset)].whitespace,
        offset < segs.len() && segs[offset].whitespace ==> skip_ws(segs, offset) > offset,
    decreases segs.len() - offset,
{
    if offset < segs.len() && segs[offset].whitespace {
        lemma_skip_ws_bounds(segs, offset + 1);
    }
}

/// Fitting from an intermediate offset gives the same result as fitting
/// the text with an earlier portion discarded: the fitter depends on
/// nothing but the suffix that starts at the offset.
pub proof fn lemma_fit_restart(segs: Seq<SegModel>, cut: int, offset: int, budget: int)
    requires
        0 <= cut <= offset <= segs.len(),
    ensures
        fit_count(segs.skip(offset), budget) == fit_count(segs.skip(cut).skip(offset - cut), budget),
        fit_width(segs.skip(offset), budget) == fit_width(segs.skip(cut).skip(offset - cut), budget),
        fit_height(segs.skip(offset), budget) == fit_height(segs.skip(cut).skip(offset - cut), budget),
        fit_ascent(segs.skip(offset), budget) == fit_ascent(segs.skip(cut).skip(offset - cut), budget),
{
    assert(segs.skip(offset) =~= segs.skip(cut).skip(offset - cut));
}

impl ShapedText {
    /// Greedy fit of whole segments starting at `offset` into `width`:
    /// returns how many segments were committed, their summed width, and
    /// the largest line height and ascent among them. Commits nothing
    /// when the first segment alone is too wide.
    pub fn fill_line(&self, width: u64, offset: usize) -> (r: (usize, u64, u64, u64))
        requires
            offset <= self@.segs.len(),
        ensures
            r.0 == fit_count(self@.segs.skip(offset as int), width as int),
            r.1 == fit_width(self@.segs.skip(offset as int), width as int),
            r.2 == fit_height(self@.segs.skip(offset as int), width as int),
            r.3 == fit_ascent(self@.segs.skip(offset as int), width as int),
            offset + r.0 <= self@.segs.len(),
    {
        let ghost all = self@.segs;
        let mut i: usize = offset;
        let mut x: u64 = 0;
        let mut h: u64 = 0;
        let mut a: u64 = 0;
        while i < self.segments.len() && self.segments[i].width <= width - x
            invariant
                offset <= i <= self.segments.len(),
                all == self@.segs,
                x <= width,
                fit_count(all.skip(offset as int), width as int)
                    == i - offset + fit_count(all.skip(i as int), width as int - x),
                fit_width(all.skip(offset as int), width as int)
                    == x + fit_width(all.skip(i as int), width as int - x),
                fit_height(all.skip(offset as int), width as int)
                    == max_len(h as int, fit_height(all.skip(i as int), width as int - x)),
                fit_ascent(all.skip(offset as int), width as int)
                    == max_len(a as int, fit_ascent(all.skip(i as int), width as int - x)),
            decreases self.segments.len() - i,
        {
            let seg_width = self.segments[i].width;
            proof {
                assert(all.skip(i as int)[0] == all[i as int]);
                assert(all.skip(i as int).skip(1) =~= all.skip(i as int + 1));
            }
            let seg_height = self.segments[i].height;
            let seg_ascent = self.segments[i].ascent;
            x = x + seg_width;
            h = max_of(h, seg_height);
            a = max_of(a, seg_ascent);
            i = i + 1;
        }
        proof {
            if i < self.segments.len() {
                assert(all.skip(i as int)[0] == all[i as int]);
            }
            assert(fit_count(all.skip(i as int), width as int - x) == 0);
        }
        (i - offset, x, h, a)
    }

    /// One segment committed against an effectively unbounded width: the
    /// overflow escape for a single word wider than the whole line. At
    /// the end of the text it commits nothing.
    pub fn force_fit(&self, offset: usize) -> (r: (usize, u64, u64, u64))
        requires
            offset <= self@.segs.len(),
        ensures
            offset < self@.segs.len() ==> r == (
                1usize,
                self@.segs[offset as int].width as u64,
                self@.segs[offset as int].height as u64,
                self@.segs[offset as int].ascent as u64,
            ),
            offset == self@.segs.len() ==> r == (0usize, 0u64, 0u64, 0u64),
            offset + r.0 <= self@.segs.len(),
    {
        if offset < self.segments.len() {
            let seg = &self.segments[offset];
            (1, seg.width, seg.height, seg.ascent)
        } else {
            (0, 0, 0, 0)
        }
    }


    /// A copy with the same characters and measurements.
    pub fn duplicate(&self) -> (r: ShapedText)
        ensures
            r@ == self@,
    {
        let mut segments: Vec<ShapedSegment> = Vec::new();
        let mut i: usize = 0;
        while i < self.segments.len()
            invariant
                i <= self.segments.len(),
                segments@.len() == i as int,
                forall|j: int| 0 <= j < i ==> (#[trigger] segments@[j])@ == self.segments@[j]@,
            decreases self.segments.len() - i,
        {
            let s = &self.segments[i];
            segments.push(
                ShapedSegment {
                    text: s.text.clone(),
                    width: s.width,
                    height: s.height,
                    ascent: s.ascent,
                    whitespace: s.whitespace,
                },
            );
            i = i + 1;
        }
        let r = ShapedText { segments, size: self.size };
        proof {
            assert(r@.segs =~= self@.segs);
        }
        r
    }

    /// The first offset at or after `offset` whose segment is not
    /// whitespace, used to drop the separator after a line wrap.
    pub fn advance_past_whitespace(&self, offset: usize) -> (r: usize)
        requires
            offset <= self@.segs.len(),
        ensures
            r == skip_ws(self@.segs, offset as int),
            offset <= r <= self@.segs.len(),
    {
        let ghost all = self@.segs;
        let mut i: usize = offset;
        while i < self.segments.len() && self.segments[i].whitespace
            invariant
                offset <= i <= self.segments.len(),
                all == self@.segs,
                skip_ws(all, offset as int) == skip_ws(all, i as int),
            decreases self.segments.len() - i,
        {
            i = i + 1;
        }
        proof {
            lemma_skip_ws_bounds(all, offset as int);
        }
        i
    }
}

} // verus!

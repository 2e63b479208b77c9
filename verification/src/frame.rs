//! A frame: a grid of glyphs as text, and the colours of its cells once they
//! are known.

use crate::codec::{
    cframe_colors, cframe_glyphs, cframe_text, format_error, glyph_text, header_height,
    header_width, lemma_cframe_text_is_glyph_text, CFrameData, CFrameView, Container,
};
use crate::grid::{lemma_cell_in_grid, lemma_place_in_rows, lemma_rows_in_grid};
use crate::text::{chars_of, lemma_first_break, line_at, lines, without_return};
use vstd::prelude::*;

verus! {

/// The length of the longest of `lines`, and 0 where there is none.
pub open spec fn longest(lines: Seq<Seq<char>>) -> nat
    decreases lines.len(),
{
    if lines.len() == 0 {
        0
    } else {
        let before = longest(lines.drop_last());
        if lines.last().len() > before {
            lines.last().len()
        } else {
            before
        }
    }
}

/// The number of rows of the grid that the text `content` writes: the number
/// of its lines.
pub open spec fn text_rows(content: Seq<char>) -> nat {
    lines(content).len()
}

/// The number of columns of the grid that the text `content` writes: the length
/// of its longest line.
pub open spec fn text_cols(content: Seq<char>) -> nat {
    longest(lines(content))
}

/// Whether a grid of `width` columns and `height` rows is the grid that the
/// text `content` writes: as many rows, and, where there is a row, as many
/// columns.
pub open spec fn grid_matches(content: Seq<char>, width: nat, height: nat) -> bool {
    text_rows(content) == height && (height == 0 || text_cols(content) == width)
}

/// The numbers of columns and of rows of the grid that `content` writes.
pub fn dimensions(content: &str) -> (d: (usize, usize))
    ensures
        d.0 == text_cols(content@),
        d.1 == text_rows(content@),
{
    let v = chars_of(content);
    let mut cols: usize = 0;
    let mut rows: usize = 0;
    let mut at: usize = 0;
    let ghost mut done: Seq<Seq<char>> = Seq::empty();
    proof {
        assert(v@.skip(0) =~= v@);
        assert(done + lines(v@) =~= lines(v@));
    }
    while at < v.len()
        invariant
            at <= v@.len(),
            lines(v@) == done + lines(v@.skip(at as int)),
            cols == longest(done),
            rows == done.len(),
            rows <= at,
        decreases v@.len() - at,
    {
        let (end, next) = line_at(v.as_slice(), at);
        proof {
            let line = v@.subrange(at as int, end as int);
            assert(done.push(line).drop_last() =~= done);
            assert(done + (seq![line] + lines(v@.skip(next as int))) =~= done.push(line) + lines(
                v@.skip(next as int),
            ));
            done = done.push(line);
        }
        if end - at > cols {
            cols = end - at;
        }
        rows = rows + 1;
        at = next;
    }
    proof {
        assert(v@.skip(at as int) =~= Seq::<char>::empty());
        assert(done + Seq::<Seq<char>>::empty() =~= done);
    }
    (cols, rows)
}

/// One frame of an animation.
#[derive(Clone, Debug)]
pub struct Frame {
    /// The glyphs, row by row, with a line break between the rows.
    pub content: String,
    /// The glyphs and colours of the cells, once they are loaded.
    pub cframe: Option<CFrameData>,
}

/// A `Frame` as plain values.
pub struct FrameView {
    pub content: Seq<char>,
    pub cells: Option<CFrameView>,
}

impl FrameView {
    /// Whether the cells, where there are any, are a whole grid, and that grid is
    /// the one that the text writes.
    pub open spec fn wf(self) -> bool {
        match self.cells {
            Some(cells) => cells.wf() && grid_matches(self.content, cells.width, cells.height),
            None => true,
        }
    }

    /// Whether `cells` can be the colours of this frame: it has none yet, and
    /// `cells` is a whole grid, the one that the text writes.
    pub open spec fn accepts(self, cells: CFrameView) -> bool {
        self.cells is None && cells.wf() && grid_matches(self.content, cells.width, cells.height)
    }

    /// The frame with `cells` for its colours, where it accepts them, and else
    /// the frame as it is.
    pub open spec fn attach(self, cells: CFrameView) -> FrameView {
        if self.accepts(cells) {
            FrameView { cells: Some(cells), ..self }
        } else {
            self
        }
    }
}

impl View for Frame {
    type V = FrameView;

    open spec fn view(&self) -> FrameView {
        FrameView {
            content: self.content@,
            cells: match self.cframe {
                Some(cells) => Some(cells@),
                None => None,
            },
        }
    }
}

impl Frame {
    /// A frame with text alone.
    pub fn text_only(content: String) -> (frame: Frame)
        ensures
            frame@ == (FrameView { content: content@, cells: None }),
            frame@.wf(),
    {
        Frame { content, cframe: None }
    }

    /// Whether the colours of the frame are loaded.
    pub fn has_color(&self) -> (b: bool)
        ensures
            b == self@.cells is Some,
    {
        self.cframe.is_some()
    }

    /// Tests whether `cells` can be the colours of this frame.
    pub fn accepts(&self, cells: &CFrameData) -> (b: bool)
        ensures
            b == self@.accepts(cells@),
    {
        if self.cframe.is_some() || !cells.is_well_formed() {
            return false;
        }
        let (cols, rows) = dimensions(self.content.as_str());
        rows as u64 == cells.height as u64 && (cells.height == 0 || cols as u64
            == cells.width as u64)
    }

    /// Gives the frame `cells` for its colours, in one step, where it accepts
    /// them; a frame that does not stays as it is. Says whether it did.
    pub fn attach(&mut self, cells: CFrameData) -> (attached: bool)
        ensures
            attached == old(self)@.accepts(cells@),
            final(self)@ == old(self)@.attach(cells@),
    {
        if self.accepts(&cells) {
            self.cframe = Some(cells);
            true
        } else {
            false
        }
    }
}

/// Where every line is as long as the others, the longest line is that long.
proof fn lemma_longest_of_equal(lines: Seq<Seq<char>>, length: nat)
    requires
        lines.len() > 0,
        forall|i: int| 0 <= i < lines.len() ==> (#[trigger] lines[i]).len() == length,
    ensures
        longest(lines) == length,
    decreases lines.len(),
{
    let before = lines.drop_last();
    assert(lines.last().len() == length) by {
        assert(lines[lines.len() - 1].len() == length);
    }
    if before.len() > 0 {
        assert forall|i: int| 0 <= i < before.len() implies (#[trigger] before[i]).len()
            == length by {
            assert(before[i] == lines[i]);
        }
        lemma_longest_of_equal(before, length);
    }
}

/// The text that glyphs write from the row `row` on has a line for each of the
/// rows that are left, each as long as the grid is wide.
proof fn lemma_lines_of_rows(width: nat, height: nat, glyphs: Seq<u8>, row: nat)
    requires
        glyphs.len() == width * height,
        forall|i: int| 0 <= i < glyphs.len() ==> glyphs[i] != 10 && #[trigger] glyphs[i] != 13,
        row <= height,
    ensures
        row * (width + 1) <= glyph_text(width, height, glyphs).len(),
        lines(glyph_text(width, height, glyphs).skip(row as int * (width + 1))).len() == height
            - row,
        forall|i: int|
            0 <= i < height - row ==> (#[trigger] lines(
                glyph_text(width, height, glyphs).skip(row as int * (width + 1)),
            )[i]).len() == width,
    decreases height - row,
{
    let text = glyph_text(width, height, glyphs);
    let w = width as int;
    lemma_rows_in_grid(w + 1, height as int, row as int);
    let rest = text.skip(row as int * (w + 1));
    assert(text.len() == height * (w + 1)) by (nonlinear_arith)
        requires
            text.len() == (width + 1) * height,
            w == width,
    ;
    if row == height {
        assert(rest.len() == 0);
    } else {
        lemma_rows_in_grid(w + 1, height as int, row as int + 1);
        assert((row + 1) * (w + 1) == row * (w + 1) + w + 1) by (nonlinear_arith);
        assert forall|k: int| 0 <= k < w implies rest[k] != '\n' && rest[k] != '\r' by {
            lemma_place_in_rows(w + 1, row as int, k);
            lemma_cell_in_grid(w, height as int, row as int, k);
            let glyph = glyphs[row * w + k];
            assert(rest[k] == text[row * (w + 1) + k]);
            assert(text[row * (w + 1) + k] == glyph as char);
            assert(glyph != 10 && glyph != 13);
        }
        assert(rest[w] == '\n') by {
            lemma_place_in_rows(w + 1, row as int, w);
            assert(rest[w] == text[row * (w + 1) + w]);
        }
        lemma_first_break(rest, w);
        let line = rest.take(w);
        assert(without_return(line) == line) by {
            if w > 0 {
                assert(line.last() == rest[w - 1]);
            }
        }
        assert(rest.skip(w + 1) =~= text.skip((row as int + 1) * (w + 1)));
        lemma_lines_of_rows(width, height, glyphs, row + 1);
        let after = lines(text.skip((row as int + 1) * (w + 1)));
        assert(lines(rest) == seq![line] + after);
        assert forall|i: int| 0 <= i < height - row implies (#[trigger] lines(rest)[i]).len()
            == width by {
            if i > 0 {
                assert(lines(rest)[i] == after[i - 1]);
            }
        }
    }
}

/// The text that a grid of glyphs writes is the text of that grid: it has as
/// many lines as the grid has rows, each as long as the grid is wide, as long
/// as no glyph is itself a line break or a carriage return. A frame whose text
/// was decoded from its container therefore accepts the cells of that
/// container.
pub proof fn lemma_glyph_text_matches_grid(width: nat, height: nat, glyphs: Seq<u8>)
    requires
        glyphs.len() == width * height,
        forall|i: int| 0 <= i < glyphs.len() ==> glyphs[i] != 10 && #[trigger] glyphs[i] != 13,
    ensures
        grid_matches(glyph_text(width, height, glyphs), width, height),
{
    let text = glyph_text(width, height, glyphs);
    lemma_lines_of_rows(width, height, glyphs, 0);
    assert(text.skip(0) =~= text);
    if height > 0 {
        lemma_longest_of_equal(lines(text), width);
    }
}

/// A frame that has a CFrame container alone takes its text and its colours
/// from it, and the two fit: the frame with the text that the container decodes
/// to accepts the cells that the container decodes to, as long as no glyph is
/// itself a line break or a carriage return.
pub proof fn lemma_decoded_text_accepts_decoded_cells(data: Seq<u8>)
    requires
        format_error(Container::CFrame, data) is None,
        forall|i: int|
            0 <= i < cframe_glyphs(data).len() ==> cframe_glyphs(data)[i] != 10
                && #[trigger] cframe_glyphs(data)[i] != 13,
    ensures
        (FrameView { content: cframe_text(data), cells: None }).accepts(
            CFrameView {
                width: header_width(data),
                height: header_height(data),
                chars: cframe_glyphs(data),
                rgb: cframe_colors(data),
            },
        ),
{
    lemma_cframe_text_is_glyph_text(data);
    lemma_glyph_text_matches_grid(header_width(data), header_height(data), cframe_glyphs(data));
}

} // verus!

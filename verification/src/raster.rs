//! The rasterizer: the cells of a coloured frame as batches, each a run of
//! glyphs of one colour in one row that is drawn in one step.
//!
//! A cell is blank where its glyph is a space or its colour is as good as
//! black; blank cells are not drawn. Every other cell lies in exactly one
//! batch, with its own glyph and its own colour, so the batches draw what
//! drawing cell by cell would draw.

use crate::codec::{CFrameData, CFrameView};
use crate::frame::Frame;
use crate::grid::{lemma_cell_in_grid, lemma_rows_in_grid};
use vstd::prelude::*;

verus! {

/// A colour.
#[derive(Clone, Copy, Debug, PartialEq, Eq, Structural)]
pub struct Rgb {
    pub red: u8,
    pub green: u8,
    pub blue: u8,
}

/// The glyph of blank cells: the space.
pub const SPACE: u8 = 32;

/// A colour with red, green and blue all below this is as good as black.
pub const DARKNESS_THRESHOLD: u8 = 5;

/// The glyph of the cell in row `row` and column `col`.
pub open spec fn glyph_at(cells: CFrameView, row: int, col: int) -> u8 {
    cells.chars[row * cells.width + col]
}

/// The colour of the cell in row `row` and column `col`.
pub open spec fn color_at(cells: CFrameView, row: int, col: int) -> Rgb {
    let i = row * cells.width + col;
    Rgb { red: cells.rgb[3 * i], green: cells.rgb[3 * i + 1], blue: cells.rgb[3 * i + 2] }
}

/// Whether the colour `color` is as good as black.
pub open spec fn is_dark(color: Rgb) -> bool {
    color.red < DARKNESS_THRESHOLD && color.green < DARKNESS_THRESHOLD && color.blue
        < DARKNESS_THRESHOLD
}

/// Whether the cell in row `row` and column `col` is blank, and so not drawn.
pub open spec fn is_blank(cells: CFrameView, row: int, col: int) -> bool {
    glyph_at(cells, row, col) == SPACE || is_dark(color_at(cells, row, col))
}

/// One batch: glyphs of one colour that stand side by side in one row.
#[derive(Clone, Debug)]
pub struct RasterBatch {
    /// The glyphs, from left to right.
    pub text: String,
    /// The row of the glyphs.
    pub row: u32,
    /// The column of the first glyph.
    pub col: u32,
    /// The colour of the glyphs.
    pub color: Rgb,
}

/// A `RasterBatch` as plain values.
pub struct BatchView {
    pub text: Seq<char>,
    pub row: nat,
    pub col: nat,
    pub color: Rgb,
}

impl View for RasterBatch {
    type V = BatchView;

    open spec fn view(&self) -> BatchView {
        BatchView {
            text: self.text@,
            row: self.row as nat,
            col: self.col as nat,
            color: self.color,
        }
    }
}

/// Whether the cell in row `row` and column `col` can stand in a batch of the
/// colour `color` as the character `c`: it is not blank, it has that colour,
/// and `c` is its glyph.
pub open spec fn cell_fits(cells: CFrameView, row: int, col: int, color: Rgb, c: char) -> bool {
    &&& !is_blank(cells, row, col)
    &&& color_at(cells, row, col) == color
    &&& c == glyph_at(cells, row, col) as char
}

/// Whether `text` is what the cells of row `row` from column `start` on write,
/// all of them in the colour `color` and none of them blank.
pub open spec fn run_fits(
    cells: CFrameView,
    row: int,
    start: int,
    color: Rgb,
    text: Seq<char>,
) -> bool {
    forall|j: int| 0 <= j < text.len() ==> cell_fits(cells, row, start + j, color, #[trigger] text[j])
}

/// A run that fits goes on fitting with one more cell that fits.
proof fn lemma_run_grows(
    cells: CFrameView,
    row: int,
    start: int,
    color: Rgb,
    text: Seq<char>,
    c: char,
)
    requires
        run_fits(cells, row, start, color, text),
        cell_fits(cells, row, start + text.len(), color, c),
    ensures
        run_fits(cells, row, start, color, text.push(c)),
{
    let longer = text.push(c);
    assert forall|j: int| 0 <= j < longer.len() implies cell_fits(
        cells,
        row,
        start + j,
        color,
        #[trigger] longer[j],
    ) by {
        if j < text.len() {
            assert(longer[j] == text[j]);
        }
    }
}

/// Every cell of a run that fits is not blank and has the run's colour.
proof fn lemma_run_cell(
    cells: CFrameView,
    row: int,
    start: int,
    color: Rgb,
    text: Seq<char>,
    j: int,
)
    requires
        run_fits(cells, row, start, color, text),
        0 <= j < text.len(),
    ensures
        cell_fits(cells, row, start + j, color, text[j]),
{
}

impl BatchView {
    /// The column behind the last glyph.
    pub open spec fn end(self) -> nat {
        self.col + self.text.len()
    }

    /// Whether the cell in row `row` and column `col` lies in the batch.
    pub open spec fn holds(self, row: int, col: int) -> bool {
        row == self.row && self.col <= col < self.end()
    }

    /// Whether the batch is a run of cells of `cells`: at least one cell, all in
    /// one row of the grid, none of them blank, each with the batch's colour and
    /// with its glyph at its place in the text.
    pub open spec fn is_run_of(self, cells: CFrameView) -> bool {
        &&& self.row < cells.height
        &&& self.text.len() >= 1
        &&& self.end() <= cells.width
        &&& run_fits(cells, self.row as int, self.col as int, self.color, self.text)
    }

    /// Whether the batch cannot be longer: the cell before it, and the cell
    /// behind it, is the edge of the grid, or blank, or of another colour.
    pub open spec fn is_maximal_in(self, cells: CFrameView) -> bool {
        &&& self.col == 0 || is_blank(cells, self.row as int, self.col - 1) || color_at(
            cells,
            self.row as int,
            self.col - 1,
        ) != self.color
        &&& self.end() == cells.width || is_blank(cells, self.row as int, self.end() as int)
            || color_at(cells, self.row as int, self.end() as int) != self.color
    }

    /// Whether the batch lies before `other`: in a row above, or in the same row
    /// and wholly to the left.
    pub open spec fn before(self, other: BatchView) -> bool {
        self.row < other.row || (self.row == other.row && self.end() <= other.col)
    }
}

/// The batches `batches` as plain values.
pub open spec fn batch_views(batches: Seq<RasterBatch>) -> Seq<BatchView> {
    batches.map_values(|b: RasterBatch| b@)
}

/// Whether one of `batches` holds the cell in row `row` and column `col`.
pub open spec fn covered(batches: Seq<BatchView>, row: int, col: int) -> bool {
    exists|k: int| 0 <= k < batches.len() && (#[trigger] batches[k]).holds(row, col)
}

/// Whether `batches` come row by row and, in a row, from left to right, without
/// sharing a cell.
pub open spec fn in_reading_order(batches: Seq<BatchView>) -> bool {
    forall|i: int, j: int|
        0 <= i < j < batches.len() ==> (#[trigger] batches[i]).before(#[trigger] batches[j])
}

/// Whether `batches` are the raster of `cells`: each is a run of cells that
/// cannot be longer, they come in reading order, and every cell that is not
/// blank lies in one of them.
pub open spec fn is_raster_of(batches: Seq<BatchView>, cells: CFrameView) -> bool {
    &&& forall|k: int|
        0 <= k < batches.len() ==> (#[trigger] batches[k]).is_run_of(cells) && batches[k].is_maximal_in(
            cells,
        )
    &&& in_reading_order(batches)
    &&& forall|row: int, col: int|
        0 <= row < cells.height && 0 <= col < cells.width && !is_blank(cells, row, col)
            ==> #[trigger] covered(batches, row, col)
}

/// Whether a new batch that begins in row `row` and column `col` cannot take in
/// the cell before it.
spec fn parts_at(cells: CFrameView, row: int, col: int) -> bool {
    col == 0 || is_blank(cells, row, col - 1) || is_blank(cells, row, col) || color_at(
        cells,
        row,
        col - 1,
    ) != color_at(cells, row, col)
}

/// What is done of the raster of `cells` when the cells before row `row`, and
/// those of that row before column `col`, are dealt with.
spec fn raster_so_far(batches: Seq<BatchView>, cells: CFrameView, row: int, col: int) -> bool {
    &&& forall|k: int|
        0 <= k < batches.len() ==> {
            &&& (#[trigger] batches[k]).is_run_of(cells)
            &&& batches[k].is_maximal_in(cells)
            &&& (batches[k].row < row || (batches[k].row == row && batches[k].end() <= col))
        }
    &&& in_reading_order(batches)
    &&& forall|r: int, c: int|
        0 <= r < cells.height && 0 <= c < cells.width && (r < row || (r == row && c < col))
            && !is_blank(cells, r, c) ==> #[trigger] covered(batches, r, c)
}

/// A cell that lies in one of `batches` lies in one of them when one more is
/// added.
proof fn lemma_covered_stays(batches: Seq<BatchView>, batch: BatchView, row: int, col: int)
    requires
        covered(batches, row, col),
    ensures
        covered(batches.push(batch), row, col),
{
    let k = choose|k: int| 0 <= k < batches.len() && (#[trigger] batches[k]).holds(row, col);
    assert(batches.push(batch)[k].holds(row, col));
}

/// The colour and the glyph of one cell, and whether it is blank.
fn cell_at(cells: &CFrameData, row: usize, col: usize) -> (r: (u8, Rgb, bool))
    requires
        cells.wf(),
        row < cells.height,
        col < cells.width,
    ensures
        r.0 == glyph_at(cells@, row as int, col as int),
        r.1 == color_at(cells@, row as int, col as int),
        r.2 == is_blank(cells@, row as int, col as int),
{
    proof {
        lemma_cell_in_grid(cells.width as int, cells.height as int, row as int, col as int);
        lemma_rows_in_grid(cells.width as int, cells.height as int, row as int);
    }
    let length = cells.rgb.len();
    let i: usize = row * (cells.width as usize) + col;
    let glyph = cells.chars[i];
    let color = Rgb { red: cells.rgb[3 * i], green: cells.rgb[3 * i + 1], blue: cells.rgb[3 * i + 2] };
    let dark = color.red < DARKNESS_THRESHOLD && color.green < DARKNESS_THRESHOLD && color.blue
        < DARKNESS_THRESHOLD;
    (glyph, color, glyph == SPACE || dark)
}

/// The raster of `cells`: its batches, row by row and from left to right.
pub fn rasterize(cells: &CFrameData) -> (batches: Vec<RasterBatch>)
    requires
        cells.wf(),
    ensures
        is_raster_of(batch_views(batches@), cells@),
{
    let width = cells.width as usize;
    let height = cells.height as usize;
    let mut batches: Vec<RasterBatch> = Vec::new();
    let mut row: usize = 0;
    assert(batch_views(batches@) =~= Seq::<BatchView>::empty());
    while row < height
        invariant
            cells.wf(),
            width == cells.width,
            height == cells.height,
            row <= height,
            raster_so_far(batch_views(batches@), cells@, row as int, 0),
        decreases height - row,
    {
        let mut col: usize = 0;
        while col < width
            invariant
                cells.wf(),
                width == cells.width,
                height == cells.height,
                row < height,
                col <= width,
                raster_so_far(batch_views(batches@), cells@, row as int, col as int),
                col < width ==> parts_at(cells@, row as int, col as int),
            decreases width - col,
        {
            let (glyph, color, blank) = cell_at(cells, row, col);
            if blank {
                col = col + 1;
            } else {
                let start = col;
                let mut text = String::new();
                text.push(glyph as char);
                proof {
                    assert(text@ =~= Seq::<char>::empty().push(glyph as char));
                    lemma_run_grows(
                        cells@,
                        row as int,
                        start as int,
                        color,
                        Seq::<char>::empty(),
                        glyph as char,
                    );
                }
                col = col + 1;
                let mut open = true;
                while open && col < width
                    invariant
                        cells.wf(),
                        width == cells.width,
                        height == cells.height,
                        row < height,
                        start < col <= width,
                        text@.len() == col - start,
                        run_fits(cells@, row as int, start as int, color, text@),
                        !open ==> col < width && (is_blank(cells@, row as int, col as int)
                            || color_at(cells@, row as int, col as int) != color),
                    decreases width - col + if open { 1int } else { 0int },
                {
                    let (next_glyph, next_color, next_blank) = cell_at(cells, row, col);
                    if next_blank || next_color != color {
                        open = false;
                    } else {
                        proof {
                            lemma_run_grows(
                                cells@,
                                row as int,
                                start as int,
                                color,
                                text@,
                                next_glyph as char,
                            );
                        }
                        text.push(next_glyph as char);
                        col = col + 1;
                    }
                }
                let ghost before = batch_views(batches@);
                let batch = RasterBatch { text, row: row as u32, col: start as u32, color };
                let ghost added = batch@;
                batches.push(batch);
                proof {
                    let after = batch_views(batches@);
                    assert(after =~= before.push(added));
                    lemma_run_cell(cells@, row as int, start as int, color, added.text, 0);
                    lemma_run_cell(
                        cells@,
                        row as int,
                        start as int,
                        color,
                        added.text,
                        added.text.len() - 1,
                    );
                    assert(added.is_run_of(cells@));
                    assert(added.is_maximal_in(cells@));
                    assert forall|k: int| 0 <= k < after.len() implies {
                        &&& (#[trigger] after[k]).is_run_of(cells@)
                        &&& after[k].is_maximal_in(cells@)
                        &&& (after[k].row < row || (after[k].row == row && after[k].end() <= col))
                    } by {
                        if k < before.len() {
                            assert(after[k] == before[k]);
                        }
                    }
                    assert forall|i: int, j: int| 0 <= i < j < after.len() implies (
                    #[trigger] after[i]).before(#[trigger] after[j]) by {
                        assert(after[i] == before[i]);
                        if j < before.len() {
                            assert(after[j] == before[j]);
                        }
                    }
                    assert forall|r: int, c: int|
                        0 <= r < cells@.height && 0 <= c < cells@.width && (r < row || (r == row
                            && c < col)) && !is_blank(cells@, r, c) implies #[trigger] covered(
                        after,
                        r,
                        c,
                    ) by {
                        if r < row || c < start {
                            assert(covered(before, r, c));
                            lemma_covered_stays(before, added, r, c);
                        } else {
                            assert(after[before.len() as int].holds(r, c));
                        }
                    }
                }
            }
        }
        row = row + 1;
    }
    batches
}

/// A run that cannot be longer is known by where it begins: two such runs
/// that begin in the same cell are the same batch.
pub proof fn lemma_run_known_by_start(cells: CFrameView, x: BatchView, y: BatchView)
    requires
        x.is_run_of(cells),
        x.is_maximal_in(cells),
        y.is_run_of(cells),
        y.is_maximal_in(cells),
        x.row == y.row,
        x.col == y.col,
    ensures
        x == y,
{
    let row = x.row as int;
    let col = x.col as int;
    lemma_run_cell(cells, row, col, x.color, x.text, 0);
    lemma_run_cell(cells, row, col, y.color, y.text, 0);
    if x.text.len() < y.text.len() {
        lemma_run_cell(cells, row, col, y.color, y.text, x.text.len() as int);
    }
    if y.text.len() < x.text.len() {
        lemma_run_cell(cells, row, col, x.color, x.text, y.text.len() as int);
    }
    assert forall|j: int| 0 <= j < x.text.len() implies x.text[j] == y.text[j] by {
        lemma_run_cell(cells, row, col, x.color, x.text, j);
        lemma_run_cell(cells, row, col, y.color, y.text, j);
    }
    assert(x.text =~= y.text);
}

/// A run that cannot be longer and holds the first cell of another such run
/// begins in that cell.
pub proof fn lemma_run_begins_where_run_begins(cells: CFrameView, x: BatchView, y: BatchView)
    requires
        x.is_run_of(cells),
        x.is_maximal_in(cells),
        y.is_run_of(cells),
        y.holds(x.row as int, x.col as int),
    ensures
        y.row == x.row,
        y.col == x.col,
{
    let row = x.row as int;
    lemma_run_cell(cells, row, x.col as int, x.color, x.text, 0);
    lemma_run_cell(cells, row, y.col as int, y.color, y.text, x.col - y.col);
    if y.col < x.col {
        lemma_run_cell(cells, row, y.col as int, y.color, y.text, x.col - 1 - y.col);
    }
}

/// Two rasters of the same cells begin with the same batches.
pub proof fn lemma_rasters_agree(a: Seq<BatchView>, b: Seq<BatchView>, cells: CFrameView, k: int)
    requires
        is_raster_of(a, cells),
        is_raster_of(b, cells),
        0 <= k <= a.len(),
        k <= b.len(),
    ensures
        forall|i: int| 0 <= i < k ==> a[i] == b[i],
    decreases k,
{
    if k > 0 {
        lemma_rasters_agree(a, b, cells, k - 1);
        let n = k - 1;
        let x = a[n];
        let y = b[n];
        lemma_run_cell(cells, x.row as int, x.col as int, x.color, x.text, 0);
        lemma_run_cell(cells, y.row as int, y.col as int, y.color, y.text, 0);
        assert(covered(b, x.row as int, x.col as int));
        let m = choose|m: int| 0 <= m < b.len() && (#[trigger] b[m]).holds(x.row as int, x.col as int);
        lemma_run_begins_where_run_begins(cells, x, b[m]);
        lemma_run_known_by_start(cells, x, b[m]);
        assert(covered(a, y.row as int, y.col as int));
        let l = choose|l: int| 0 <= l < a.len() && (#[trigger] a[l]).holds(y.row as int, y.col as int);
        lemma_run_begins_where_run_begins(cells, y, a[l]);
        lemma_run_known_by_start(cells, y, a[l]);
        if m < n {
            assert(a[m] == b[m]);
            assert(a[m].before(a[n]));
        } else if l < n {
            assert(a[l] == b[l]);
            assert(b[l].before(b[n]));
        } else if m > n && l > n {
            assert(b[n].before(b[m]));
            assert(a[n].before(a[l]));
        }
    }
}

/// The raster of a frame is one: whatever rasterizes the same cells a second
/// time finds the same batches, with the same glyphs, places and colours.
pub proof fn lemma_raster_unique(a: Seq<BatchView>, b: Seq<BatchView>, cells: CFrameView)
    requires
        is_raster_of(a, cells),
        is_raster_of(b, cells),
    ensures
        a == b,
{
    let n = if a.len() <= b.len() {
        a.len() as int
    } else {
        b.len() as int
    };
    lemma_rasters_agree(a, b, cells, n);
    if a.len() > n {
        let x = a[n];
        lemma_run_cell(cells, x.row as int, x.col as int, x.color, x.text, 0);
        assert(covered(b, x.row as int, x.col as int));
        let m = choose|m: int| 0 <= m < b.len() && (#[trigger] b[m]).holds(x.row as int, x.col as int);
        lemma_run_begins_where_run_begins(cells, x, b[m]);
        lemma_run_known_by_start(cells, x, b[m]);
        assert(a[m] == b[m]);
        assert(a[m].before(a[n]));
    }
    if b.len() > n {
        let y = b[n];
        lemma_run_cell(cells, y.row as int, y.col as int, y.color, y.text, 0);
        assert(covered(a, y.row as int, y.col as int));
        let l = choose|l: int| 0 <= l < a.len() && (#[trigger] a[l]).holds(y.row as int, y.col as int);
        lemma_run_begins_where_run_begins(cells, y, a[l]);
        lemma_run_known_by_start(cells, y, a[l]);
        assert(a[l] == b[l]);
        assert(b[l].before(b[n]));
    }
    assert(a =~= b);
}

/// The width of a cell in hundredths of the font size: 0.6 times the size.
pub const CHAR_WIDTH_PERCENT: u32 = 60;

/// The height of a row in hundredths of the font size: 1.11 times the size.
pub const LINE_HEIGHT_PERCENT: u32 = 111;

/// The number of units in a pixel. Font sizes are given in hundredths of a
/// pixel and cells are measured in hundredths of the font size, so places and
/// lengths come in ten-thousandths of a pixel.
pub const UNITS_PER_PIXEL: u32 = 10000;

/// The width of a cell at the font size `font_centi`, in units.
pub open spec fn char_width(font_centi: nat) -> nat {
    CHAR_WIDTH_PERCENT as nat * font_centi
}

/// The height of a row at the font size `font_centi`, in units.
pub open spec fn line_height(font_centi: nat) -> nat {
    LINE_HEIGHT_PERCENT as nat * font_centi
}

/// The least number of whole pixels that hold `units` units.
pub open spec fn pixels_up(units: nat) -> nat {
    (units + UNITS_PER_PIXEL - 1) as nat / UNITS_PER_PIXEL as nat
}

/// The size of the raster of a grid in whole pixels: as many cell widths as the
/// grid has columns, as many row heights as it has rows, each rounded up.
pub open spec fn raster_size(cols: nat, rows: nat, font_centi: nat) -> (nat, nat) {
    (pixels_up(cols * char_width(font_centi)), pixels_up(rows * line_height(font_centi)))
}

/// Where the batch that begins in row `row` and column `col` is drawn, in
/// units from the left and from the top: the top left corner of its first cell.
pub open spec fn batch_origin(row: nat, col: nat, font_centi: nat) -> (nat, nat) {
    (col * char_width(font_centi), row * line_height(font_centi))
}

/// The size in whole pixels of the raster of a grid of `cols` columns and `rows`
/// rows at the font size `font_centi`, which is in hundredths of a pixel.
pub fn measure(cols: u32, rows: u32, font_centi: u32) -> (size: (u64, u64))
    ensures
        size.0 == raster_size(cols as nat, rows as nat, font_centi as nat).0,
        size.1 == raster_size(cols as nat, rows as nat, font_centi as nat).1,
{
    assert(cols as nat * (60 * font_centi as nat) <= 0xffff_ffff * (60 * 0xffff_ffff))
        by (nonlinear_arith)
        requires
            cols <= 0xffff_ffff,
            font_centi <= 0xffff_ffff,
    ;
    assert(rows as nat * (111 * font_centi as nat) <= 0xffff_ffff * (111 * 0xffff_ffff))
        by (nonlinear_arith)
        requires
            rows <= 0xffff_ffff,
            font_centi <= 0xffff_ffff,
    ;
    let width: u128 = (cols as u128) * ((CHAR_WIDTH_PERCENT as u128) * (font_centi as u128));
    let height: u128 = (rows as u128) * ((LINE_HEIGHT_PERCENT as u128) * (font_centi as u128));
    let per: u128 = UNITS_PER_PIXEL as u128;
    (((width + per - 1) / per) as u64, ((height + per - 1) / per) as u64)
}

impl RasterBatch {
    /// Where the batch is drawn at the font size `font_centi`, in
    /// ten-thousandths of a pixel from the left and from the top.
    pub fn origin(&self, font_centi: u32) -> (at: (u128, u128))
        ensures
            at.0 == batch_origin(self@.row, self@.col, font_centi as nat).0,
            at.1 == batch_origin(self@.row, self@.col, font_centi as nat).1,
    {
        assert(self.col as nat * (60 * font_centi as nat) <= 0xffff_ffff * (60 * 0xffff_ffff))
            by (nonlinear_arith)
            requires
                self.col <= 0xffff_ffff,
                font_centi <= 0xffff_ffff,
        ;
        assert(self.row as nat * (111 * font_centi as nat) <= 0xffff_ffff * (111 * 0xffff_ffff))
            by (nonlinear_arith)
            requires
                self.row <= 0xffff_ffff,
                font_centi <= 0xffff_ffff,
        ;
        let x: u128 = (self.col as u128) * ((CHAR_WIDTH_PERCENT as u128) * (font_centi as u128));
        let y: u128 = (self.row as u128) * ((LINE_HEIGHT_PERCENT as u128) * (font_centi as u128));
        (x, y)
    }
}

/// A frame rasterized at one font size: what is drawn to show it in colour.
#[derive(Clone, Debug)]
pub struct Raster {
    /// The font size, in hundredths of a pixel.
    pub font_centi: u32,
    /// The width of the raster, in whole pixels.
    pub width_px: u64,
    /// The height of the raster, in whole pixels.
    pub height_px: u64,
    /// The batches, in the order in which they are drawn.
    pub batches: Vec<RasterBatch>,
}

impl Raster {
    /// Whether this is the raster of `cells` at the font size `font_centi`.
    pub open spec fn depicts(&self, cells: CFrameView, font_centi: u32) -> bool {
        &&& self.font_centi == font_centi
        &&& self.width_px == raster_size(cells.width, cells.height, font_centi as nat).0
        &&& self.height_px == raster_size(cells.width, cells.height, font_centi as nat).1
        &&& is_raster_of(batch_views(self.batches@), cells)
    }
}

/// Rasterizes `cells` at the font size `font_centi`, which is in hundredths of
/// a pixel.
pub fn render(cells: &CFrameData, font_centi: u32) -> (raster: Raster)
    requires
        cells.wf(),
    ensures
        raster.depicts(cells@, font_centi),
{
    let (width_px, height_px) = measure(cells.width, cells.height, font_centi);
    Raster { font_centi, width_px, height_px, batches: rasterize(cells) }
}

/// Whether `frame` can be rasterized: its colours are loaded, for every cell of
/// its grid.
pub open spec fn can_render(frame: crate::frame::FrameView) -> bool {
    frame.cells matches Some(cells) && cells.wf()
}

/// Rasterizes `frame` at the font size `font_centi`. A frame without colours
/// has no raster: it is shown as text.
pub fn render_frame(frame: &Frame, font_centi: u32) -> (raster: Option<Raster>)
    ensures
        match raster {
            Some(r) => can_render(frame@) && r.depicts(frame@.cells->0, font_centi),
            None => !can_render(frame@),
        },
{
    match &frame.cframe {
        Some(cells) => {
            if cells.is_well_formed() {
                Some(render(cells, font_centi))
            } else {
                None
            }
        },
        None => None,
    }
}

} // verus!

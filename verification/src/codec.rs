//! The two binary containers of a frame: CFrame, which holds a glyph and a
//! colour for every cell, and Colors, which holds the colours alone.
//!
//! Both open with the width and the height of the grid, four bytes each, low
//! byte first. The cells follow row by row: four bytes a cell in a CFrame
//! (glyph, red, green, blue), three in Colors (red, green, blue).

use crate::grid::{lemma_cell_in_grid, lemma_place_in_rows, lemma_rows_in_grid};
use crate::text::{decimal_string, decimal_text};
use vstd::prelude::*;

verus! {

/// The number that the four bytes from `at` on write, low byte first.
pub open spec fn le_u32(data: Seq<u8>, at: int) -> nat
    recommends
        0 <= at,
        at + 4 <= data.len(),
{
    (data[at] + 256 * data[at + 1] + 65536 * data[at + 2] + 16777216 * data[at + 3]) as nat
}

/// The length of the header.
pub const HEADER_SIZE: usize = 8;

/// The width that the header of `data` states, in cells.
pub open spec fn header_width(data: Seq<u8>) -> nat {
    le_u32(data, 0)
}

/// The height that the header of `data` states, in cells.
pub open spec fn header_height(data: Seq<u8>) -> nat {
    le_u32(data, 4)
}

/// The number of cells that the header of `data` states.
pub open spec fn header_cells(data: Seq<u8>) -> nat {
    header_width(data) * header_height(data)
}

/// The kinds of container.
#[derive(Clone, Copy, Debug, PartialEq, Eq, Structural)]
pub enum Container {
    /// A glyph and a colour for every cell.
    CFrame,
    /// A colour for every cell.
    Colors,
}

/// The number of bytes that stand for one cell in a container of this kind.
pub open spec fn cell_size(kind: Container) -> nat {
    match kind {
        Container::CFrame => 4,
        Container::Colors => 3,
    }
}

/// The least length of a container of this kind with the header of `data`.
pub open spec fn declared_size(kind: Container, data: Seq<u8>) -> nat {
    8 + header_cells(data) * cell_size(kind)
}

/// Why a buffer is no container.
#[derive(Clone, Copy, Debug, PartialEq, Eq, Structural)]
pub enum FormatError {
    /// The buffer is shorter than a header.
    HeaderTooShort { kind: Container, actual: usize },
    /// The buffer is shorter than its header says.
    SizeMismatch { kind: Container, expected: u128, actual: usize },
}

/// What decoding `data` as a container of this kind fails with, if it fails.
pub open spec fn format_error(kind: Container, data: Seq<u8>) -> Option<FormatError> {
    if data.len() < 8 {
        Some(FormatError::HeaderTooShort { kind, actual: data.len() as usize })
    } else if data.len() < declared_size(kind, data) {
        Some(
            FormatError::SizeMismatch {
                kind,
                expected: declared_size(kind, data) as u128,
                actual: data.len() as usize,
            },
        )
    } else {
        None
    }
}

/// The name of a kind of container in an error's words.
pub open spec fn container_text(kind: Container) -> Seq<char> {
    match kind {
        Container::CFrame => "CFrame"@,
        Container::Colors => "Colors"@,
    }
}

/// The words in which a `FormatError` is reported: they name the length that
/// was expected and the length that was found.
pub open spec fn format_error_text(e: FormatError) -> Seq<char> {
    match e {
        FormatError::HeaderTooShort { kind, actual } => container_text(kind)
            + " file too small (missing header)"@,
        FormatError::SizeMismatch { kind, expected, actual } => container_text(kind)
            + " file size mismatch: expected "@ + decimal_text(expected as nat) + " bytes, got "@
            + decimal_text(actual as nat),
    }
}

impl Container {
    /// The name of the kind.
    pub fn name(&self) -> (s: String)
        ensures
            s@ == container_text(*self),
    {
        match self {
            Container::CFrame => "CFrame".to_owned(),
            Container::Colors => "Colors".to_owned(),
        }
    }
}

impl FormatError {
    /// The error in words.
    pub fn message(&self) -> (m: String)
        ensures
            m@ == format_error_text(*self),
    {
        match self {
            FormatError::HeaderTooShort { kind, actual } => {
                let mut m = kind.name();
                m.append(" file too small (missing header)");
                m
            },
            FormatError::SizeMismatch { kind, expected, actual } => {
                let mut m = kind.name();
                m.append(" file size mismatch: expected ");
                m.append(decimal_string(*expected).as_str());
                m.append(" bytes, got ");
                m.append(decimal_string(*actual as u128).as_str());
                m
            },
        }
    }
}

/// Reads the four bytes from `at` on as a number, low byte first.
fn read_le_u32(data: &[u8], at: usize) -> (n: u32)
    requires
        at + 4 <= data@.len(),
    ensures
        n == le_u32(data@, at as int),
{
    data[at] as u32 + (data[at + 1] as u32) * 256 + (data[at + 2] as u32) * 65536 + (data[at
        + 3] as u32) * 16777216
}

/// The grid that a header states.
#[derive(Clone, Copy, Debug, PartialEq, Eq, Structural)]
pub struct Header {
    /// The width of the grid, in cells.
    pub width: u32,
    /// The height of the grid, in cells.
    pub height: u32,
    /// The number of cells: width times height.
    pub cells: usize,
}

/// Reads the header of a container of this kind and holds the length of the
/// buffer against it.
pub fn read_header(kind: Container, data: &[u8]) -> (r: Result<Header, FormatError>)
    ensures
        match r {
            Ok(header) => {
                &&& format_error(kind, data@) is None
                &&& header.width == header_width(data@)
                &&& header.height == header_height(data@)
                &&& header.cells == header_cells(data@)
            },
            Err(e) => format_error(kind, data@) == Some(e),
        },
{
    if data.len() < HEADER_SIZE {
        return Err(FormatError::HeaderTooShort { kind, actual: data.len() });
    }
    let width = read_le_u32(data, 0);
    let height = read_le_u32(data, 4);
    let per_cell: u128 = match kind {
        Container::CFrame => 4,
        Container::Colors => 3,
    };
    assert(width as nat * height as nat <= 0xffff_ffff * 0xffff_ffff) by (nonlinear_arith)
        requires
            width <= 0xffff_ffff,
            height <= 0xffff_ffff,
    ;
    let cells: u128 = (width as u128) * (height as u128);
    let expected: u128 = 8 + cells * per_cell;
    if (data.len() as u128) < expected {
        return Err(FormatError::SizeMismatch { kind, expected, actual: data.len() });
    }
    Ok(Header { width, height, cells: cells as usize })
}

/// The colours of a frame without its glyphs: what a Colors container holds.
#[derive(Clone, Debug)]
pub struct ColorData {
    /// The width of the grid, in cells.
    pub width: u32,
    /// The height of the grid, in cells.
    pub height: u32,
    /// Red, green and blue of each cell, row by row.
    pub rgb: Vec<u8>,
}

/// The glyphs and the colours of a frame: what a CFrame container holds.
#[derive(Clone, Debug)]
pub struct CFrameData {
    /// The width of the grid, in cells.
    pub width: u32,
    /// The height of the grid, in cells.
    pub height: u32,
    /// The glyph of each cell, row by row.
    pub chars: Vec<u8>,
    /// Red, green and blue of each cell, row by row.
    pub rgb: Vec<u8>,
}

/// A `CFrameData` as plain values.
pub struct CFrameView {
    pub width: nat,
    pub height: nat,
    pub chars: Seq<u8>,
    pub rgb: Seq<u8>,
}

impl CFrameView {
    /// Whether there is a glyph and three bytes of colour for each cell of the
    /// grid.
    pub open spec fn wf(self) -> bool {
        &&& self.chars.len() == self.width * self.height
        &&& self.rgb.len() == self.width * self.height * 3
    }
}

impl View for CFrameData {
    type V = CFrameView;

    open spec fn view(&self) -> CFrameView {
        CFrameView {
            width: self.width as nat,
            height: self.height as nat,
            chars: self.chars@,
            rgb: self.rgb@,
        }
    }
}

impl ColorData {
    /// Whether there are three bytes of colour for each cell of the grid.
    pub open spec fn wf(&self) -> bool {
        self.rgb@.len() == self.width * self.height * 3
    }
}

impl CFrameData {
    /// Whether there is a glyph and three bytes of colour for each cell of the
    /// grid.
    pub open spec fn wf(&self) -> bool {
        &&& self.chars@.len() == self.width * self.height
        &&& self.rgb@.len() == self.width * self.height * 3
    }

    /// The text that the glyphs write.
    pub open spec fn text(&self) -> Seq<char> {
        glyph_text(self.width as nat, self.height as nat, self.chars@)
    }

    /// Tests whether there is a glyph and three bytes of colour for each cell.
    pub fn is_well_formed(&self) -> (b: bool)
        ensures
            b == self.wf(),
    {
        assert(self.width as nat * self.height as nat <= 0xffff_ffff * 0xffff_ffff)
            by (nonlinear_arith)
            requires
                self.width <= 0xffff_ffff,
                self.height <= 0xffff_ffff,
        ;
        let cells: u128 = (self.width as u128) * (self.height as u128);
        self.chars.len() as u128 == cells && self.rgb.len() as u128 == cells * 3
    }

    /// The glyphs as text: one character for each cell, and a line break behind
    /// every row.
    pub fn to_text(&self) -> (text: String)
        requires
            self.wf(),
        ensures
            text@ == self.text(),
    {
        let width = self.width as usize;
        let height = self.height as usize;
        let length = self.chars.len();
        let ghost full = self.text();
        let mut text = String::new();
        let mut row: usize = 0;
        assert(full.take(0) =~= Seq::<char>::empty());
        while row < height
            invariant
                width == self.width,
                height == self.height,
                full == self.text(),
                width * height == self.chars@.len() == length,
                row <= height,
                text@ == full.take(row * (width + 1)),
            decreases height - row,
        {
            let mut col: usize = 0;
            proof {
                lemma_rows_in_grid(width as int, height as int, row as int);
            }
            let start: usize = row * width;
            while col < width
                invariant
                    width == self.width,
                    height == self.height,
                    full == self.text(),
                    width * height == self.chars@.len() == length,
                    row < height,
                    col <= width,
                    start == row * width,
                    text@ == full.take(row * (width + 1) + col),
                decreases width - col,
            {
                proof {
                    lemma_cell_in_grid(width as int, height as int, row as int, col as int);
                    lemma_cell_in_grid(width + 1, height as int, row as int, col as int);
                    lemma_place_in_rows(width + 1, row as int, col as int);
                }
                let glyph = self.chars[start + col];
                text.push(glyph as char);
                proof {
                    let p = row * (width + 1) + col;
                    assert(full[p] == glyph as char);
                    assert(full.take(p + 1) =~= full.take(p).push(full[p]));
                }
                col = col + 1;
            }
            text.push('\n');
            proof {
                lemma_cell_in_grid(width + 1, height as int, row as int, width as int);
                lemma_place_in_rows(width + 1, row as int, width as int);
                let p = row * (width + 1) + width;
                assert(full[p] == '\n');
                assert(full.take(p + 1) =~= full.take(p).push(full[p]));
                assert(p + 1 == (row + 1) * (width + 1)) by (nonlinear_arith)
                    requires
                        p == row * (width + 1) + width,
                ;
            }
            row = row + 1;
        }
        proof {
            assert(height * (width + 1) == (width + 1) * height) by (nonlinear_arith);
            assert(full.take(full.len() as int) == full);
        }
        text
    }
}

/// The text that the glyphs of a grid write: the glyphs of each row as
/// characters, and a line break behind every row.
pub open spec fn glyph_text(width: nat, height: nat, glyphs: Seq<u8>) -> Seq<char> {
    let w = width as int;
    Seq::new(
        (width + 1) * height,
        |p: int|
            if p % (w + 1) == w {
                '\n'
            } else {
                glyphs[(p / (w + 1)) * w + p % (w + 1)] as char
            },
    )
}

/// The glyphs of the cells of the CFrame container `data`, row by row.
pub open spec fn cframe_glyphs(data: Seq<u8>) -> Seq<u8> {
    Seq::new(header_cells(data), |i: int| data[8 + 4 * i])
}

/// The colours of the cells of the CFrame container `data`, row by row, three
/// bytes a cell.
pub open spec fn cframe_colors(data: Seq<u8>) -> Seq<u8> {
    Seq::new(header_cells(data) * 3, |j: int| data[8 + 4 * (j / 3) + 1 + j % 3])
}

/// The colours of the cells of the Colors container `data`.
pub open spec fn colors_body(data: Seq<u8>) -> Seq<u8> {
    data.subrange(8, 8 + header_cells(data) as int * 3)
}

/// The text of the CFrame container `data`: the glyphs of each row as
/// characters, and a line break behind every row.
pub open spec fn cframe_text(data: Seq<u8>) -> Seq<char> {
    let width = header_width(data) as int;
    Seq::new(
        (header_width(data) + 1) * header_height(data),
        |p: int|
            if p % (width + 1) == width {
                '\n'
            } else {
                data[8 + 4 * ((p / (width + 1)) * width + p % (width + 1))] as char
            },
    )
}

/// Decodes a CFrame container into the glyphs and the colours of its cells.
/// Bytes behind the last cell are not read.
pub fn decode_cframe(data: &[u8]) -> (r: Result<CFrameData, FormatError>)
    ensures
        match r {
            Ok(frame) => {
                &&& format_error(Container::CFrame, data@) is None
                &&& frame.width == header_width(data@)
                &&& frame.height == header_height(data@)
                &&& frame.chars@ == cframe_glyphs(data@)
                &&& frame.rgb@ == cframe_colors(data@)
                &&& frame.wf()
            },
            Err(e) => format_error(Container::CFrame, data@) == Some(e),
        },
{
    let header = match read_header(Container::CFrame, data) {
        Ok(header) => header,
        Err(e) => {
            return Err(e);
        },
    };
    let cells = header.cells;
    let length = data.len();
    assert(declared_size(Container::CFrame, data@) == 8 + cells * 4);
    let mut chars: Vec<u8> = Vec::new();
    let mut rgb: Vec<u8> = Vec::new();
    let mut i: usize = 0;
    while i < cells
        invariant
            cells == header_cells(data@),
            8 + cells * 4 <= data@.len() == length,
            i <= cells,
            chars@ == cframe_glyphs(data@).take(i as int),
            rgb@ == cframe_colors(data@).take(3 * i),
        decreases cells - i,
    {
        let offset = HEADER_SIZE + 4 * i;
        chars.push(data[offset]);
        rgb.push(data[offset + 1]);
        rgb.push(data[offset + 2]);
        rgb.push(data[offset + 3]);
        proof {
            let g = cframe_glyphs(data@);
            let c = cframe_colors(data@);
            assert(g.take(i + 1) =~= g.take(i as int).push(g[i as int]));
            assert(c.take(3 * i + 3) =~= c.take(3 * i).push(c[3 * i]).push(c[3 * i + 1]).push(
                c[3 * i + 2],
            ));
        }
        i = i + 1;
    }
    assert(chars@ == cframe_glyphs(data@));
    assert(rgb@ == cframe_colors(data@));
    Ok(CFrameData { width: header.width, height: header.height, chars, rgb })
}

/// Decodes a Colors container into the colours of its cells. Bytes behind the
/// last cell are not read.
pub fn decode_colors(data: &[u8]) -> (r: Result<ColorData, FormatError>)
    ensures
        match r {
            Ok(colors) => {
                &&& format_error(Container::Colors, data@) is None
                &&& colors.width == header_width(data@)
                &&& colors.height == header_height(data@)
                &&& colors.rgb@ == colors_body(data@)
                &&& colors.wf()
            },
            Err(e) => format_error(Container::Colors, data@) == Some(e),
        },
{
    let header = match read_header(Container::Colors, data) {
        Ok(header) => header,
        Err(e) => {
            return Err(e);
        },
    };
    let length = data.len();
    assert(declared_size(Container::Colors, data@) == 8 + header.cells * 3);
    let end = HEADER_SIZE + header.cells * 3;
    let mut rgb: Vec<u8> = Vec::new();
    let mut i: usize = HEADER_SIZE;
    while i < end
        invariant
            8 <= i <= end <= data@.len(),
            rgb@ == data@.subrange(8, i as int),
        decreases end - i,
    {
        rgb.push(data[i]);
        assert(data@.subrange(8, i + 1) =~= data@.subrange(8, i as int).push(data@[i as int]));
        i = i + 1;
    }
    Ok(ColorData { width: header.width, height: header.height, rgb })
}

/// Decodes a CFrame container into text: one character for the glyph of each
/// cell, and a line break behind every row. This is the text of a frame that has
/// no text file of its own.
pub fn decode_cframe_text(data: &[u8]) -> (r: Result<String, FormatError>)
    ensures
        match r {
            Ok(text) => format_error(Container::CFrame, data@) is None && text@ == cframe_text(
                data@,
            ),
            Err(e) => format_error(Container::CFrame, data@) == Some(e),
        },
{
    let header = match read_header(Container::CFrame, data) {
        Ok(header) => header,
        Err(e) => {
            return Err(e);
        },
    };
    let length = data.len();
    let width = header.width as usize;
    let height = header.height as usize;
    let ghost full = cframe_text(data@);
    assert(declared_size(Container::CFrame, data@) == 8 + width * height * 4);
    let mut text = String::new();
    let mut row: usize = 0;
    assert(full.take(0) =~= Seq::<char>::empty());
    while row < height
        invariant
            width == header_width(data@),
            height == header_height(data@),
            full == cframe_text(data@),
            8 + width * height * 4 <= data@.len() == length,
            row <= height,
            text@ == full.take(row * (width + 1)),
        decreases height - row,
    {
        let mut col: usize = 0;
        proof {
            lemma_rows_in_grid(width as int, height as int, row as int);
        }
        let start: usize = row * width;
        while col < width
            invariant
                width == header_width(data@),
                height == header_height(data@),
                full == cframe_text(data@),
                8 + width * height * 4 <= data@.len() == length,
                row < height,
                col <= width,
                start == row * width,
                text@ == full.take(row * (width + 1) + col),
            decreases width - col,
        {
            proof {
                lemma_cell_in_grid(width as int, height as int, row as int, col as int);
                lemma_cell_in_grid(width + 1, height as int, row as int, col as int);
                lemma_place_in_rows(width + 1, row as int, col as int);
            }
            let glyph = data[HEADER_SIZE + 4 * (start + col)];
            text.push(glyph as char);
            proof {
                let p = row * (width + 1) + col;
                assert(full[p] == glyph as char);
                assert(full.take(p + 1) =~= full.take(p).push(full[p]));
            }
            col = col + 1;
        }
        text.push('\n');
        proof {
            lemma_cell_in_grid(width + 1, height as int, row as int, width as int);
            lemma_place_in_rows(width + 1, row as int, width as int);
            let p = row * (width + 1) + width;
            assert(full[p] == '\n');
            assert(full.take(p + 1) =~= full.take(p).push(full[p]));
            assert(p + 1 == (row + 1) * (width + 1)) by (nonlinear_arith)
                requires
                    p == row * (width + 1) + width,
            ;
        }
        row = row + 1;
    }
    proof {
        assert(height * (width + 1) == (width + 1) * height) by (nonlinear_arith);
        assert(full.take(full.len() as int) == full);
    }
    Ok(text)
}

/// The two ways of decoding a CFrame container agree: the text is what the
/// glyphs of the decoded cells write.
pub proof fn lemma_cframe_text_is_glyph_text(data: Seq<u8>)
    requires
        format_error(Container::CFrame, data) is None,
    ensures
        cframe_text(data) == glyph_text(
            header_width(data),
            header_height(data),
            cframe_glyphs(data),
        ),
{
    let width = header_width(data) as int;
    let height = header_height(data) as int;
    let text = cframe_text(data);
    let other = glyph_text(header_width(data), header_height(data), cframe_glyphs(data));
    assert forall|p: int| 0 <= p < text.len() implies text[p] == other[p] by {
        crate::grid::lemma_row_of_place(width + 1, height, p);
        let row = p / (width + 1);
        let col = p % (width + 1);
        if col < width {
            lemma_cell_in_grid(width, height, row, col);
        }
    }
    assert(text =~= other);
}

/// The two ways of decoding a CFrame container agree cell by cell: in the text,
/// the character of the cell in row `row` and column `col` is the glyph that
/// the decoded cells hold for it, and a line break ends the row.
pub proof fn lemma_cframe_text_agrees_with_cells(data: Seq<u8>, row: int, col: int)
    requires
        format_error(Container::CFrame, data) is None,
        0 <= row < header_height(data),
        0 <= col < header_width(data),
    ensures
        0 <= row * (header_width(data) + 1) + col < cframe_text(data).len(),
        0 <= row * header_width(data) + col < cframe_glyphs(data).len(),
        cframe_text(data)[row * (header_width(data) + 1) + col] == cframe_glyphs(data)[row
            * header_width(data) + col] as char,
        cframe_text(data)[row * (header_width(data) + 1) + header_width(data)] == '\n',
{
    let width = header_width(data) as int;
    let height = header_height(data) as int;
    lemma_cell_in_grid(width, height, row, col);
    lemma_cell_in_grid(width + 1, height, row, col);
    lemma_cell_in_grid(width + 1, height, row, width);
    lemma_place_in_rows(width + 1, row, col);
    lemma_place_in_rows(width + 1, row, width);
}

/// A buffer that is shorter than its header says, or than a header, is no
/// container: decoding it fails, and the error names the length that the header
/// asks for and the length that was found.
pub proof fn lemma_short_buffer_is_refused(kind: Container, data: Seq<u8>)
    requires
        data.len() < 8 || data.len() < declared_size(kind, data),
    ensures
        format_error(kind, data) is Some,
        data.len() >= 8 ==> format_error(kind, data) == Some(
            FormatError::SizeMismatch {
                kind,
                expected: declared_size(kind, data) as u128,
                actual: data.len() as usize,
            },
        ),
{
}

/// A buffer that is as long as its header says is a container, whatever
/// follows the last cell.
pub proof fn lemma_long_buffer_is_accepted(kind: Container, data: Seq<u8>)
    requires
        data.len() >= 8,
        data.len() >= declared_size(kind, data),
    ensures
        format_error(kind, data) is None,
{
}

} // verus!

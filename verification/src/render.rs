use vstd::prelude::*;
use crate::error::RenderError;
use crate::feature::{decimated, extract_features, lemma_decimated_by_removal};
use crate::frame::{Frame, FrameView};
use crate::palette::{Palette, PaletteView};

verus! {

/// The width in pixels of the frames that the player is made for.
pub const VIDEO_WIDTH: usize = 480;

/// The height in pixels of the frames that the player is made for.
pub const VIDEO_HEIGHT: usize = 360;

/// Number of pixels along each side of a cell.
pub const CELL_SIZE: usize = 8;

/// The pixel row of a cell that is sampled, counted from the cell's top.
pub const SAMPLED_ROW: usize = 4;

/// The character that ends each line of glyphs, and each frame.
pub const LINE_BREAK: char = '\n';

impl FrameView {
    /// The number of rows of whole cells.
    pub open spec fn grid_rows(self) -> int {
        self.height as int / 8
    }

    /// The number of whole cells in a row.
    pub open spec fn grid_cols(self) -> int {
        self.width as int / 8
    }

    /// The samples that stand for the cell in grid row `cy` and grid column
    /// `cx`: the first channel of the eight pixels of the cell's middle row.
    pub open spec fn cell_row(self, cy: int, cx: int) -> Seq<u8> {
        Seq::new(8, |k: int| self.at(cy * 8 + 4, cx * 8 + k, 0))
    }

    /// True when the frame has a whole cell in grid row `cy` and grid column
    /// `cx`, and a channel to sample.
    pub open spec fn has_cell(self, cy: int, cx: int) -> bool {
        0 <= cy < self.grid_rows() && 0 <= cx < self.grid_cols() && self.channels > 0
    }
}

/// The glyph that stands for the cell in grid row `cy` and grid column `cx`.
pub open spec fn cell_glyph(palette: PaletteView, frame: FrameView, cy: int, cx: int) -> char {
    palette.glyph_for(decimated(frame.cell_row(cy, cx)))
}

/// The glyphs of grid row `cy`, from left to right.
pub open spec fn line_glyphs(palette: PaletteView, frame: FrameView, cy: int) -> Seq<char> {
    Seq::new(frame.grid_cols() as nat, |cx: int| cell_glyph(palette, frame, cy, cx))
}

/// The text of the first `n` grid rows: the glyphs of each, and a line break
/// after each.
pub open spec fn lines_text(palette: PaletteView, frame: FrameView, n: int) -> Seq<char>
    decreases n,
{
    if n <= 0 {
        Seq::empty()
    } else {
        lines_text(palette, frame, n - 1) + line_glyphs(palette, frame, n - 1).push('\n')
    }
}

/// The text of a frame: its lines, and one more line break, which leaves an
/// empty line between this frame and the next.
pub open spec fn frame_text(palette: PaletteView, frame: FrameView) -> Seq<char> {
    lines_text(palette, frame, frame.grid_rows()).push('\n')
}

/// `String::push`: the character is appended to the end of the string.
#[verifier::external_body]
fn push_char(text: &mut String, c: char)
    ensures
        final(text)@ == old(text)@.push(c),
{
    text.push(c)
}

impl Frame {
    /// Samples the cell in grid row `cy` and grid column `cx`: the first
    /// channel of the eight pixels of its middle row, from left to right. A
    /// cell that does not lie wholly in the frame, or a frame without a
    /// channel, gives no row of eight samples.
    pub fn cell_row(&self, cy: usize, cx: usize) -> (r: Result<Vec<u8>, RenderError>)
        ensures
            self@.has_cell(cy as int, cx as int) ==> r is Ok && r->Ok_0@ == self@.cell_row(
                cy as int,
                cx as int,
            ),
            !self@.has_cell(cy as int, cx as int) ==> r is Err && r->Err_0
                == RenderError::InvalidInput,
    {
        let height = self.height();
        let width = self.width();
        if cy >= height / CELL_SIZE || cx >= width / CELL_SIZE || self.channels() == 0 {
            return Err(RenderError::InvalidInput);
        }
        let y = cy * CELL_SIZE + SAMPLED_ROW;
        let x0 = cx * CELL_SIZE;
        let mut row: Vec<u8> = Vec::new();
        let mut k: usize = 0;
        while k < CELL_SIZE
            invariant
                0 <= k <= 8,
                y == cy * 8 + 4,
                x0 == cx * 8,
                y < self@.height,
                x0 + 8 <= self@.width,
                self@.channels > 0,
                row@.len() == k,
                forall|m: int| 0 <= m < k ==> row@[m] == self@.at(y as int, x0 + m, 0),
            decreases 8 - k,
        {
            match self.sample(y, x0 + k, 0) {
                Some(value) => {
                    row.push(value);
                },
                None => {
                    return Err(RenderError::InvalidInput);
                },
            }
            k = k + 1;
        }
        assert(row@ =~= self@.cell_row(cy as int, cx as int));
        Ok(row)
    }
}

/// Quantises a cell row: the glyph of the palette entry nearest to the row's
/// feature vector. A row that is not eight samples long is refused.
pub fn row_glyph(palette: &Palette, row: &[u8]) -> (r: Result<char, RenderError>)
    ensures
        row@.len() == 8 ==> r == Ok::<char, RenderError>(palette@.glyph_for(decimated(row@))),
        row@.len() != 8 ==> r == Err::<char, RenderError>(RenderError::InvalidInput),
{
    match extract_features(row) {
        Ok(features) => {
            proof {
                lemma_decimated_by_removal(row@);
            }
            palette.val_to_char(&features)
        },
        Err(e) => Err(e),
    }
}

/// Renders a frame as text: one glyph for each whole cell, the cells of a
/// grid row from left to right on one line, the grid rows from top to bottom,
/// a line break after each line and one more after the last. A frame without
/// a channel is refused.
pub fn render_frame(palette: &Palette, frame: &Frame) -> (r: Result<String, RenderError>)
    ensures
        frame@.channels > 0 ==> r is Ok && r->Ok_0@ == frame_text(palette@, frame@),
        frame@.channels == 0 ==> r is Err && r->Err_0 == RenderError::InvalidInput,
{
    if frame.channels() == 0 {
        return Err(RenderError::InvalidInput);
    }
    let rows = frame.height() / CELL_SIZE;
    let cols = frame.width() / CELL_SIZE;
    let mut text = String::new();
    let mut cy: usize = 0;
    while cy < rows
        invariant
            0 <= cy <= rows,
            rows == frame@.grid_rows(),
            cols == frame@.grid_cols(),
            frame@.channels > 0,
            text@ == lines_text(palette@, frame@, cy as int),
        decreases rows - cy,
    {
        let ghost before = text@;
        let mut cx: usize = 0;
        while cx < cols
            invariant
                0 <= cx <= cols,
                0 <= cy < rows,
                rows == frame@.grid_rows(),
                cols == frame@.grid_cols(),
                frame@.channels > 0,
                text@ == before + line_glyphs(palette@, frame@, cy as int).take(cx as int),
            decreases cols - cx,
        {
            let row = match frame.cell_row(cy, cx) {
                Ok(row) => row,
                Err(e) => {
                    return Err(e);
                },
            };
            let glyph = match row_glyph(palette, row.as_slice()) {
                Ok(glyph) => glyph,
                Err(e) => {
                    return Err(e);
                },
            };
            let ghost line = line_glyphs(palette@, frame@, cy as int);
            assert(glyph == line[cx as int]);
            assert(line.take(cx as int).push(glyph) =~= line.take(cx + 1));
            push_char(&mut text, glyph);
            assert(text@ =~= before + line.take(cx + 1));
            cx = cx + 1;
        }
        let ghost line = line_glyphs(palette@, frame@, cy as int);
        assert(line.take(cols as int) =~= line);
        push_char(&mut text, LINE_BREAK);
        assert(text@ =~= lines_text(palette@, frame@, cy + 1)) by {
            assert(text@ =~= (before + line).push('\n'));
            assert((before + line).push('\n') =~= before + line.push('\n'));
        }
        cy = cy + 1;
    }
    push_char(&mut text, LINE_BREAK);
    Ok(text)
}

/// Where each character of the first `n` lines stands: line `cy` begins at
/// position `cy * (cols + 1)`, holds the glyphs of its cells from left to
/// right, and ends with a line break.
pub proof fn lemma_lines_text_layout(palette: PaletteView, frame: FrameView, n: int)
    requires
        0 <= n,
    ensures
        lines_text(palette, frame, n).len() == n * (frame.grid_cols() + 1),
        forall|cy: int, cx: int|
            0 <= cy < n && 0 <= cx < frame.grid_cols() ==> lines_text(palette, frame, n)[cy * (
            frame.grid_cols() + 1) + cx] == #[trigger] cell_glyph(palette, frame, cy, cx),
        forall|cy: int|
            0 <= cy < n ==> #[trigger] lines_text(palette, frame, n)[cy * (frame.grid_cols() + 1)
                + frame.grid_cols()] == '\n',
    decreases n,
{
    let cols = frame.grid_cols();
    let step = cols + 1;
    if n > 0 {
        lemma_lines_text_layout(palette, frame, n - 1);
        let head = lines_text(palette, frame, n - 1);
        let line = line_glyphs(palette, frame, n - 1).push('\n');
        let text = lines_text(palette, frame, n);
        assert(text == head + line);
        assert(head.len() == (n - 1) * step);
        assert(n * step == (n - 1) * step + step) by (nonlinear_arith);
        assert forall|cy: int, cx: int| 0 <= cy < n && 0 <= cx < cols implies text[cy * step + cx]
            == #[trigger] cell_glyph(palette, frame, cy, cx) by {
            assert(0 <= cy * step) by (nonlinear_arith)
                requires
                    0 <= cy,
                    step >= 0,
            ;
            if cy < n - 1 {
                assert(cy * step + step <= (n - 1) * step) by (nonlinear_arith)
                    requires
                        0 <= cy < n - 1,
                        step >= 0,
                ;
                assert(text[cy * step + cx] == head[cy * step + cx]);
            } else {
                assert(text[cy * step + cx] == line[cx]);
            }
        }
        assert forall|cy: int| 0 <= cy < n implies #[trigger] text[cy * step + cols] == '\n' by {
            assert(0 <= cy * step) by (nonlinear_arith)
                requires
                    0 <= cy,
                    step >= 0,
            ;
            if cy < n - 1 {
                assert(cy * step + step <= (n - 1) * step) by (nonlinear_arith)
                    requires
                        0 <= cy < n - 1,
                        step >= 0,
                ;
                assert(text[cy * step + cols] == head[cy * step + cols]);
            } else {
                assert(text[cy * step + cols] == line[cols]);
            }
        }
    } else {
        assert(0 * step == 0) by (nonlinear_arith);
    }
}

/// The shape of a rendered frame: as many lines as the frame has grid rows,
/// each of one glyph for each cell of the row and a line break, and one line
/// break more at the end.
pub proof fn lemma_frame_text_layout(palette: PaletteView, frame: FrameView)
    ensures
        frame_text(palette, frame).len() == frame.grid_rows() * (frame.grid_cols() + 1) + 1,
        forall|cy: int, cx: int|
            0 <= cy < frame.grid_rows() && 0 <= cx < frame.grid_cols() ==> frame_text(
                palette,
                frame,
            )[cy * (frame.grid_cols() + 1) + cx] == #[trigger] cell_glyph(palette, frame, cy, cx),
        forall|cy: int|
            0 <= cy < frame.grid_rows() ==> #[trigger] frame_text(palette, frame)[cy * (
            frame.grid_cols() + 1) + frame.grid_cols()] == '\n',
        frame_text(palette, frame).last() == '\n',
{
    let rows = frame.grid_rows();
    let step = frame.grid_cols() + 1;
    lemma_lines_text_layout(palette, frame, rows);
    let lines = lines_text(palette, frame, rows);
    assert forall|cy: int, cx: int| 0 <= cy < rows && 0 <= cx < frame.grid_cols() implies frame_text(
        palette,
        frame,
    )[cy * step + cx] == #[trigger] cell_glyph(palette, frame, cy, cx) by {
        assert(0 <= cy * step && cy * step + step <= rows * step) by (nonlinear_arith)
            requires
                0 <= cy < rows,
                step >= 0,
        ;
        assert(frame_text(palette, frame)[cy * step + cx] == lines[cy * step + cx]);
    }
    assert forall|cy: int| 0 <= cy < rows implies #[trigger] frame_text(palette, frame)[cy * step
        + frame.grid_cols()] == '\n' by {
        assert(0 <= cy * step && cy * step + step <= rows * step) by (nonlinear_arith)
            requires
                0 <= cy < rows,
                step >= 0,
        ;
        assert(frame_text(palette, frame)[cy * step + frame.grid_cols()] == lines[cy * step
            + frame.grid_cols()]);
    }
}

/// A frame of 480 by 360 pixels renders as 45 lines of 60 glyphs, 2700 glyphs
/// in all.
pub proof fn lemma_reference_grid(palette: PaletteView, frame: FrameView)
    requires
        frame.width == VIDEO_WIDTH,
        frame.height == VIDEO_HEIGHT,
    ensures
        frame.grid_rows() == 45,
        frame.grid_cols() == 60,
        frame.grid_rows() * frame.grid_cols() == 2700,
        frame_text(palette, frame).len() == 2746,
        forall|cy: int, cx: int|
            0 <= cy < 45 && 0 <= cx < 60 ==> frame_text(palette, frame)[cy * 61 + cx]
                == #[trigger] cell_glyph(palette, frame, cy, cx),
        forall|cy: int| 0 <= cy < 45 ==> #[trigger] frame_text(palette, frame)[cy * 61 + 60] == '\n',
        frame_text(palette, frame)[2745] == '\n',
{
    lemma_frame_text_layout(palette, frame);
    let rows = frame.grid_rows();
    let cols = frame.grid_cols();
    assert(rows == 45 && cols == 60);
    assert(rows * (cols + 1) == 2745) by (nonlinear_arith)
        requires
            rows == 45,
            cols == 60,
    ;
}

/// The text of a frame depends on nothing but the frame's extents and the
/// samples that its cells are read from: two frames that agree in these
/// render alike, and so does one frame rendered twice.
pub proof fn lemma_same_samples_same_text(palette: PaletteView, a: FrameView, b: FrameView)
    requires
        a.height == b.height,
        a.width == b.width,
        forall|cy: int, cx: int, k: int|
            0 <= cy < a.grid_rows() && 0 <= cx < a.grid_cols() && 0 <= k < 8 ==> #[trigger] a.at(
                cy * 8 + 4,
                cx * 8 + k,
                0,
            ) == b.at(cy * 8 + 4, cx * 8 + k, 0),
    ensures
        frame_text(palette, a) == frame_text(palette, b),
{
    lemma_same_samples_same_lines(palette, a, b, a.grid_rows());
}

proof fn lemma_same_samples_same_lines(palette: PaletteView, a: FrameView, b: FrameView, n: int)
    requires
        n <= a.grid_rows(),
        a.height == b.height,
        a.width == b.width,
        forall|cy: int, cx: int, k: int|
            0 <= cy < a.grid_rows() && 0 <= cx < a.grid_cols() && 0 <= k < 8 ==> #[trigger] a.at(
                cy * 8 + 4,
                cx * 8 + k,
                0,
            ) == b.at(cy * 8 + 4, cx * 8 + k, 0),
    ensures
        lines_text(palette, a, n) == lines_text(palette, b, n),
    decreases n,
{
    if n > 0 {
        lemma_same_samples_same_lines(palette, a, b, n - 1);
        assert forall|cx: int| 0 <= cx < a.grid_cols() implies #[trigger] a.cell_row(n - 1, cx)
            == b.cell_row(n - 1, cx) by {
            assert forall|k: int| 0 <= k < 8 implies #[trigger] a.cell_row(n - 1, cx)[k]
                == b.cell_row(n - 1, cx)[k] by {
                assert(a.at((n - 1) * 8 + 4, cx * 8 + k, 0) == b.at((n - 1) * 8 + 4, cx * 8 + k, 0));
            }
            assert(a.cell_row(n - 1, cx) =~= b.cell_row(n - 1, cx));
        }
        assert(line_glyphs(palette, a, n - 1) =~= line_glyphs(palette, b, n - 1));
    }
}

} // verus!

//! Turning a label into a pane graphics overlay: a big centered glyph as a PNG, plus the grid
//! placement that positions it over the pane.

use vstd::prelude::*;
use crate::herdr::client::{Overlay, Placement};
use crate::model::{CellSize, Rect, Target};
use crate::codec::{
    base64_encode, base64_standard, crc32_ieee, crc_new, crc_sum, crc_update, zlib_encoder_fast,
    zlib_finish, zlib_finished, zlib_write_all, zlib_write_succeeds,
};

verus! {

/// The grid placement of a label block, and the pixel size of the image drawn into it.
#[derive(Debug, Clone, Copy, PartialEq, Eq, Structural)]
pub struct Plan {
    pub placement: Placement,
    pub image_width: u32,
    pub image_height: u32,
}

pub open spec fn max_int(a: int, b: int) -> int {
    if a >= b { a } else { b }
}

pub open spec fn min_int(a: int, b: int) -> int {
    if a <= b { a } else { b }
}

/// Pane width in cells, at least one.
pub open spec fn pane_cols(rect: Rect) -> int {
    max_int(rect.width as int, 1)
}

/// Pane height in cells, at least one.
pub open spec fn pane_rows(rect: Rect) -> int {
    max_int(rect.height as int, 1)
}

/// Label block height: about two thirds of the pane, at least five rows, at most twenty, and
/// never taller than the pane.
pub open spec fn grid_rows_for(rect: Rect) -> int {
    min_int(min_int(max_int(pane_rows(rect) * 68 / 100, 5), pane_rows(rect)), 20)
}

/// Label block width: about three quarters of its height, at least four columns, at most
/// sixteen, and never wider than the pane.
pub open spec fn grid_cols_for(rect: Rect) -> int {
    min_int(min_int(max_int(grid_rows_for(rect) * 72 / 100, 4), pane_cols(rect)), 16)
}

/// The plan for a label over `rect`: the block centered in the pane, the image one cell of
/// pixels per grid cell.
pub open spec fn plan_of(rect: Rect, cell: CellSize) -> Plan {
    Plan {
        placement: Placement {
            viewport_col: ((pane_cols(rect) - grid_cols_for(rect)) / 2) as i32,
            viewport_row: ((pane_rows(rect) - grid_rows_for(rect)) / 2) as i32,
            grid_cols: grid_cols_for(rect) as u32,
            grid_rows: grid_rows_for(rect) as u32,
        },
        image_width: (grid_cols_for(rect) * cell.width_px) as u32,
        image_height: (grid_rows_for(rect) * cell.height_px) as u32,
    }
}

/// The image of a plan fits `u32` arithmetic.
pub open spec fn plan_fits(rect: Rect, cell: CellSize) -> bool {
    grid_cols_for(rect) * cell.width_px <= u32::MAX && grid_rows_for(rect) * cell.height_px
        <= u32::MAX
}

/// A label occupies a centered block of the pane, sized to a fraction of it and clamped so it
/// stays bold on huge panes and legible on tiny ones.
pub fn plan_placement(rect: Rect, cell: CellSize) -> (plan: Plan)
    requires
        plan_fits(rect, cell),
    ensures
        plan == plan_of(rect, cell),
        1 <= plan.placement.grid_cols <= pane_cols(rect),
        1 <= plan.placement.grid_rows <= pane_rows(rect),
        plan.placement.grid_rows <= 20,
        plan.placement.grid_cols <= 16,
        plan.placement.viewport_col >= 0,
        plan.placement.viewport_row >= 0,
        plan.placement.viewport_col * 2 + plan.placement.grid_cols == pane_cols(rect) - (
        pane_cols(rect) - plan.placement.grid_cols) % 2,
        plan.placement.viewport_row * 2 + plan.placement.grid_rows == pane_rows(rect) - (
        pane_rows(rect) - plan.placement.grid_rows) % 2,
        plan.image_width == plan.placement.grid_cols * cell.width_px,
        plan.image_height == plan.placement.grid_rows * cell.height_px,
{
    let pane_cols: u32 = if rect.width > 1 { rect.width as u32 } else { 1 };
    let pane_rows: u32 = if rect.height > 1 { rect.height as u32 } else { 1 };
    let mut grid_rows = pane_rows * 68 / 100;
    if grid_rows < 5 {
        grid_rows = 5;
    }
    if grid_rows > pane_rows {
        grid_rows = pane_rows;
    }
    if grid_rows > 20 {
        grid_rows = 20;
    }
    let mut grid_cols = grid_rows * 72 / 100;
    if grid_cols < 4 {
        grid_cols = 4;
    }
    if grid_cols > pane_cols {
        grid_cols = pane_cols;
    }
    if grid_cols > 16 {
        grid_cols = 16;
    }
    let viewport_col = ((pane_cols - grid_cols) / 2) as i32;
    let viewport_row = ((pane_rows - grid_rows) / 2) as i32;
    Plan {
        placement: Placement { viewport_col, viewport_row, grid_cols, grid_rows },
        image_width: grid_cols * cell.width_px,
        image_height: grid_rows * cell.height_px,
    }
}

/// 5x7 bitmaps for every label in [`crate::model::LABELS`], row by row. `1` is an on pixel.
pub const GLYPHS: [(char, [[u8; 5]; 7]); 16] = [
    ('1', [[0, 0, 1, 0, 0], [0, 1, 1, 0, 0], [0, 0, 1, 0, 0], [0, 0, 1, 0, 0], [0, 0, 1, 0, 0], [0, 0, 1, 0, 0], [0, 1, 1, 1, 0]]),
    ('2', [[0, 1, 1, 1, 0], [1, 0, 0, 0, 1], [0, 0, 0, 0, 1], [0, 0, 0, 1, 0], [0, 0, 1, 0, 0], [0, 1, 0, 0, 0], [1, 1, 1, 1, 1]]),
    ('3', [[1, 1, 1, 1, 0], [0, 0, 0, 0, 1], [0, 0, 0, 0, 1], [0, 1, 1, 1, 0], [0, 0, 0, 0, 1], [0, 0, 0, 0, 1], [1, 1, 1, 1, 0]]),
    ('4', [[0, 0, 0, 1, 0], [0, 0, 1, 1, 0], [0, 1, 0, 1, 0], [1, 0, 0, 1, 0], [1, 1, 1, 1, 1], [0, 0, 0, 1, 0], [0, 0, 0, 1, 0]]),
    ('5', [[1, 1, 1, 1, 1], [1, 0, 0, 0, 0], [1, 0, 0, 0, 0], [1, 1, 1, 1, 0], [0, 0, 0, 0, 1], [0, 0, 0, 0, 1], [1, 1, 1, 1, 0]]),
    ('6', [[0, 1, 1, 1, 0], [1, 0, 0, 0, 0], [1, 0, 0, 0, 0], [1, 1, 1, 1, 0], [1, 0, 0, 0, 1], [1, 0, 0, 0, 1], [0, 1, 1, 1, 0]]),
    ('7', [[1, 1, 1, 1, 1], [0, 0, 0, 0, 1], [0, 0, 0, 1, 0], [0, 0, 1, 0, 0], [0, 1, 0, 0, 0], [0, 1, 0, 0, 0], [0, 1, 0, 0, 0]]),
    ('8', [[0, 1, 1, 1, 0], [1, 0, 0, 0, 1], [1, 0, 0, 0, 1], [0, 1, 1, 1, 0], [1, 0, 0, 0, 1], [1, 0, 0, 0, 1], [0, 1, 1, 1, 0]]),
    ('9', [[0, 1, 1, 1, 0], [1, 0, 0, 0, 1], [1, 0, 0, 0, 1], [0, 1, 1, 1, 1], [0, 0, 0, 0, 1], [0, 0, 0, 0, 1], [0, 1, 1, 1, 0]]),
    ('a', [[0, 1, 1, 1, 0], [1, 0, 0, 0, 1], [1, 0, 0, 0, 1], [1, 1, 1, 1, 1], [1, 0, 0, 0, 1], [1, 0, 0, 0, 1], [1, 0, 0, 0, 1]]),
    ('b', [[1, 1, 1, 1, 0], [1, 0, 0, 0, 1], [1, 0, 0, 0, 1], [1, 1, 1, 1, 0], [1, 0, 0, 0, 1], [1, 0, 0, 0, 1], [1, 1, 1, 1, 0]]),
    ('c', [[0, 1, 1, 1, 1], [1, 0, 0, 0, 0], [1, 0, 0, 0, 0], [1, 0, 0, 0, 0], [1, 0, 0, 0, 0], [1, 0, 0, 0, 0], [0, 1, 1, 1, 1]]),
    ('d', [[1, 1, 1, 1, 0], [1, 0, 0, 0, 1], [1, 0, 0, 0, 1], [1, 0, 0, 0, 1], [1, 0, 0, 0, 1], [1, 0, 0, 0, 1], [1, 1, 1, 1, 0]]),
    ('e', [[1, 1, 1, 1, 1], [1, 0, 0, 0, 0], [1, 0, 0, 0, 0], [1, 1, 1, 1, 0], [1, 0, 0, 0, 0], [1, 0, 0, 0, 0], [1, 1, 1, 1, 1]]),
    ('f', [[1, 1, 1, 1, 1], [1, 0, 0, 0, 0], [1, 0, 0, 0, 0], [1, 1, 1, 1, 0], [1, 0, 0, 0, 0], [1, 0, 0, 0, 0], [1, 0, 0, 0, 0]]),
    ('g', [[0, 1, 1, 1, 1], [1, 0, 0, 0, 0], [1, 0, 0, 0, 0], [1, 0, 0, 1, 1], [1, 0, 0, 0, 1], [1, 0, 0, 0, 1], [0, 1, 1, 1, 0]]),
];

/// Distinct bright colors so adjacent panes' labels never blur together. `[r, g, b, a]`.
pub const COLORS: [[u8; 4]; 6] = [
    [255, 92, 92, 245],
    [64, 156, 255, 245],
    [245, 191, 79, 245],
    [80, 220, 190, 245],
    [220, 130, 245, 245],
    [130, 220, 120, 245],
];

/// Overlay stacking order; well above pane content so labels are never hidden behind text.
pub const LABEL_Z_INDEX: i32 = 1000;

/// The index in [`GLYPHS`] of the first glyph for `label` at or after `from`, if any.
pub open spec fn glyph_index_from(label: char, from: int) -> Option<int>
    decreases 16 - from,
{
    if from < 0 || from >= 16 {
        None
    } else if GLYPHS[from].0 == label {
        Some(from)
    } else {
        glyph_index_from(label, from + 1)
    }
}

/// The bitmap drawn for `label`: its own glyph, or the first glyph when it has none.
pub open spec fn glyph_of(label: char) -> [[u8; 5]; 7] {
    match glyph_index_from(label, 0) {
        Some(i) => GLYPHS[i].1,
        None => GLYPHS[0].1,
    }
}

/// Whether [`GLYPHS`] holds a bitmap for `label`.
pub fn has_glyph(label: char) -> (r: bool)
    ensures
        r == glyph_index_from(label, 0) is Some,
{
    let mut i: usize = 0;
    while i < 16
        invariant
            0 <= i <= 16,
            glyph_index_from(label, 0) == glyph_index_from(label, i as int),
        decreases 16 - i,
    {
        if GLYPHS[i].0 == label {
            return true;
        }
        i += 1;
    }
    false
}

/// The bitmap for `label`, falling back to the first glyph.
pub fn glyph_for(label: char) -> (g: [[u8; 5]; 7])
    ensures
        g == glyph_of(label),
{
    let mut i: usize = 0;
    while i < 16
        invariant
            0 <= i <= 16,
            glyph_index_from(label, 0) == glyph_index_from(label, i as int),
        decreases 16 - i,
    {
        if GLYPHS[i].0 == label {
            return GLYPHS[i].1;
        }
        i += 1;
    }
    GLYPHS[0].1
}

/// Every label of the alphabet has a glyph of its own.
pub proof fn law_every_label_has_a_glyph()
    ensures
        forall|i: int| 0 <= i < 16 ==> #[trigger] glyph_index_from(crate::model::LABELS[i], 0) == Some(i),
{
    reveal_with_fuel(glyph_index_from, 17);
    assert(glyph_index_from(crate::model::LABELS[0], 0) == Some(0int));
    assert(glyph_index_from(crate::model::LABELS[1], 0) == Some(1int));
    assert(glyph_index_from(crate::model::LABELS[2], 0) == Some(2int));
    assert(glyph_index_from(crate::model::LABELS[3], 0) == Some(3int));
    assert(glyph_index_from(crate::model::LABELS[4], 0) == Some(4int));
    assert(glyph_index_from(crate::model::LABELS[5], 0) == Some(5int));
    assert(glyph_index_from(crate::model::LABELS[6], 0) == Some(6int));
    assert(glyph_index_from(crate::model::LABELS[7], 0) == Some(7int));
    assert(glyph_index_from(crate::model::LABELS[8], 0) == Some(8int));
    assert(glyph_index_from(crate::model::LABELS[9], 0) == Some(9int));
    assert(glyph_index_from(crate::model::LABELS[10], 0) == Some(10int));
    assert(glyph_index_from(crate::model::LABELS[11], 0) == Some(11int));
    assert(glyph_index_from(crate::model::LABELS[12], 0) == Some(12int));
    assert(glyph_index_from(crate::model::LABELS[13], 0) == Some(13int));
    assert(glyph_index_from(crate::model::LABELS[14], 0) == Some(14int));
    assert(glyph_index_from(crate::model::LABELS[15], 0) == Some(15int));
}

/// A row-major RGBA pixel buffer.
pub struct Rgba {
    pub width: u32,
    pub height: u32,
    pub data: Vec<u8>,
}

/// Position of channel `c` of the pixel at (`row`, `col`) in an image `width` pixels wide.
pub open spec fn byte_index(width: int, row: int, col: int, c: int) -> int {
    (row * width + col) * 4 + c
}

/// Channel `c` of the pixel at (`row`, `col`).
pub open spec fn byte_at(data: Seq<u8>, width: int, row: int, col: int, c: int) -> u8 {
    data[byte_index(width, row, col, c)]
}

/// The pixel position lies in the `w` by `h` rectangle whose top-left pixel is (`x`, `y`).
pub open spec fn in_rect(x: int, y: int, w: int, h: int, row: int, col: int) -> bool {
    x <= col < x + w && y <= row < y + h
}

proof fn lemma_byte_index_bounds(width: int, height: int, row: int, col: int, c: int)
    requires
        0 <= row < height,
        0 <= col < width,
        0 <= c < 4,
    ensures
        0 <= byte_index(width, row, col, c) < width * height * 4,
        byte_index(width, row, col, c) == (row * width + col) * 4 + c,
        row * width + col < width * height,
{
    assert(row * width + col < width * height) by (nonlinear_arith)
        requires
            0 <= row < height,
            0 <= col < width,
    ;
    assert(0 <= row * width) by (nonlinear_arith)
        requires
            0 <= row,
            0 <= col < width,
    ;
}

proof fn lemma_byte_index_injective(
    width: int,
    r1: int,
    c1: int,
    k1: int,
    r2: int,
    c2: int,
    k2: int,
)
    requires
        0 <= r1,
        0 <= r2,
        0 <= c1 < width,
        0 <= c2 < width,
        0 <= k1 < 4,
        0 <= k2 < 4,
        byte_index(width, r1, c1, k1) == byte_index(width, r2, c2, k2),
    ensures
        r1 == r2 && c1 == c2 && k1 == k2,
{
    let p1 = r1 * width + c1;
    let p2 = r2 * width + c2;
    assert(k1 == k2 && p1 == p2);
    if r1 < r2 {
        assert(r1 * width + c1 < r2 * width + c2) by (nonlinear_arith)
            requires
                r1 < r2,
                0 <= c1 < width,
                0 <= c2,
        ;
    } else if r2 < r1 {
        assert(r2 * width + c2 < r1 * width + c1) by (nonlinear_arith)
            requires
                r2 < r1,
                0 <= c2 < width,
                0 <= c1,
        ;
    }
}

impl Rgba {
    /// The buffer holds exactly four bytes per pixel.
    pub open spec fn wf(&self) -> bool {
        self.data@.len() == self.width * self.height * 4
    }

    /// A fresh, fully transparent image.
    pub fn new(width: u32, height: u32) -> (image: Self)
        requires
            width * height * 4 <= u32::MAX,
        ensures
            image.wf(),
            image.width == width,
            image.height == height,
            forall|i: int| 0 <= i < image.data@.len() ==> image.data@[i] == 0,
    {
        let size = (width * height * 4) as usize;
        let data: Vec<u8> = vec![0u8; size];
        proof {
            assert forall|i: int| 0 <= i < data@.len() implies data@[i] == 0 by {
                assert(vstd::pervasive::cloned(0u8, data@[i]));
            }
        }
        Rgba { width, height, data }
    }

    /// Paints `color` over the pixels of the `w` by `h` rectangle at (`x`, `y`), clipped to
    /// the image.
    pub fn fill_rect(&mut self, x: u32, y: u32, w: u32, h: u32, color: [u8; 4])
        requires
            old(self).wf(),
            old(self).width * old(self).height * 4 <= u32::MAX,
            x + w <= u32::MAX,
            y + h <= u32::MAX,
        ensures
            final(self).wf(),
            final(self).width == old(self).width,
            final(self).height == old(self).height,
            forall|row: int, col: int, c: int|
                0 <= row < old(self).height && 0 <= col < old(self).width && 0 <= c < 4
                    ==> #[trigger] byte_at(final(self).data@, old(self).width as int, row, col, c)
                    == if in_rect(x as int, y as int, w as int, h as int, row, col) {
                    color[c]
                } else {
                    byte_at(old(self).data@, old(self).width as int, row, col, c)
                },
    {
        let width = self.width;
        let height = self.height;
        let ghost old_data = self.data@;
        let row_end = if y + h < height { y + h } else { height };
        let col_end = if x + w < width { x + w } else { width };
        let mut row = y;
        while row < row_end
            invariant
                self.width == width,
                self.height == height,
                self.wf(),
                width * height * 4 <= u32::MAX,
                row_end <= height,
                row_end <= y + h,
                col_end <= width,
                col_end <= x + w,
                col_end == width || col_end == x + w,
                row_end == height || row_end == y + h,
                y <= row,
                row == y || row <= row_end,
                old_data.len() == self.data@.len(),
                forall|r: int, cl: int, c: int|
                    0 <= r < height && 0 <= cl < width && 0 <= c < 4 ==> #[trigger] byte_at(
                        self.data@,
                        width as int,
                        r,
                        cl,
                        c,
                    ) == if y <= r < row && x <= cl < x + w {
                        color[c]
                    } else {
                        byte_at(old_data, width as int, r, cl, c)
                    },
            decreases row_end - row,
        {
            let mut col = x;
            while col < col_end
                invariant
                    self.width == width,
                    self.height == height,
                    self.wf(),
                    width * height * 4 <= u32::MAX,
                    row < row_end,
                    row_end <= height,
                    col_end <= width,
                    col_end <= x + w,
                    col_end == width || col_end == x + w,
                    y <= row,
                    x <= col,
                    col == x || col <= col_end,
                    old_data.len() == self.data@.len(),
                    forall|r: int, cl: int, c: int|
                        0 <= r < height && 0 <= cl < width && 0 <= c < 4 ==> #[trigger] byte_at(
                            self.data@,
                            width as int,
                            r,
                            cl,
                            c,
                        ) == if (y <= r < row && x <= cl < x + w) || (r == row && x <= cl
                            < col) {
                            color[c]
                        } else {
                            byte_at(old_data, width as int, r, cl, c)
                        },
                decreases col_end - col,
            {
                proof {
                    lemma_byte_index_bounds(width as int, height as int, row as int, col as int, 0);
                }
                let pixel = row * width + col;
                let base = (pixel * 4) as usize;
                let ghost before = self.data@;
                self.data.set(base, color[0]);
                self.data.set(base + 1, color[1]);
                self.data.set(base + 2, color[2]);
                self.data.set(base + 3, color[3]);
                proof {
                    assert forall|r: int, cl: int, c: int|
                        0 <= r < height && 0 <= cl < width && 0 <= c < 4 implies #[trigger] byte_at(
                            self.data@,
                            width as int,
                            r,
                            cl,
                            c,
                        ) == if (y <= r < row && x <= cl < x + w) || (r == row && x <= cl
                            < col + 1) {
                            color[c]
                        } else {
                            byte_at(old_data, width as int, r, cl, c)
                        } by {
                        lemma_byte_index_bounds(width as int, height as int, r, cl, c);
                        let i = byte_index(width as int, r, cl, c);
                        if r == row && cl == col {
                            assert(i == base + c);
                        } else {
                            if i == base || i == base + 1 || i == base + 2 || i == base + 3 {
                                lemma_byte_index_injective(
                                    width as int,
                                    r,
                                    cl,
                                    c,
                                    row as int,
                                    col as int,
                                    i - base,
                                );
                            }
                            assert(self.data@[i] == before[i]);
                            assert(byte_at(before, width as int, r, cl, c) == before[i]);
                        }
                    }
                }
                col += 1;
            }
            row += 1;
        }
        proof {
            assert forall|r: int, cl: int, c: int|
                0 <= r < height && 0 <= cl < width && 0 <= c < 4 implies #[trigger] byte_at(
                    self.data@,
                    width as int,
                    r,
                    cl,
                    c,
                ) == if in_rect(x as int, y as int, w as int, h as int, r, cl) {
                    color[c]
                } else {
                    byte_at(old_data, width as int, r, cl, c)
                } by {}
        }
    }
}

/// How many image pixels one glyph pixel spans: as large as fits, at least one.
pub open spec fn glyph_scale(width: int, height: int) -> int {
    max_int(min_int(width / 5, height / 7), 1)
}

/// Left edge of the centered glyph.
pub open spec fn glyph_origin_x(width: int, height: int) -> int {
    max_int(width - 5 * glyph_scale(width, height), 0) / 2
}

/// Top edge of the centered glyph.
pub open spec fn glyph_origin_y(width: int, height: int) -> int {
    max_int(height - 7 * glyph_scale(width, height), 0) / 2
}

/// Glyph pixel (`gr`, `gc`) of `label` is on and covers image pixel (`row`, `col`).
pub open spec fn glyph_cell_covers(
    label: char,
    width: int,
    height: int,
    gr: int,
    gc: int,
    row: int,
    col: int,
) -> bool {
    let s = glyph_scale(width, height);
    &&& glyph_of(label)[gr][gc] == 1
    &&& in_rect(
        glyph_origin_x(width, height) + gc * s,
        glyph_origin_y(width, height) + gr * s,
        s,
        s,
        row,
        col,
    )
}

/// Some on-pixel among the first `n` glyph pixels (row by row) covers (`row`, `col`).
pub open spec fn glyph_covers_upto(
    label: char,
    width: int,
    height: int,
    n: int,
    row: int,
    col: int,
) -> bool {
    exists|gr: int, gc: int|
        0 <= gr < 7 && 0 <= gc < 5 && gr * 5 + gc < n && #[trigger] glyph_cell_covers(
            label,
            width,
            height,
            gr,
            gc,
            row,
            col,
        )
}

/// The label's glyph, scaled and centered in a `width` by `height` image, covers
/// (`row`, `col`).
pub open spec fn glyph_covers(label: char, width: int, height: int, row: int, col: int) -> bool {
    glyph_covers_upto(label, width, height, 35, row, col)
}

proof fn lemma_glyph_extent(width: int, height: int)
    requires
        0 <= width,
        0 <= height,
    ensures
        glyph_scale(width, height) >= 1,
        glyph_origin_x(width, height) + 5 * glyph_scale(width, height) <= max_int(width, 5),
        glyph_origin_y(width, height) + 7 * glyph_scale(width, height) <= max_int(height, 7),
        glyph_origin_x(width, height) >= 0,
        glyph_origin_y(width, height) >= 0,
{
}

/// The bytes of a `width` by `height` RGBA image of `label`'s glyph in `color` on a
/// transparent background.
pub open spec fn label_image(label: char, width: int, height: int, color: [u8; 4]) -> Seq<u8> {
    Seq::new(
        (width * height * 4) as nat,
        |k: int|
            if glyph_covers(label, width, height, (k / 4) / width, (k / 4) % width) {
                color[k % 4]
            } else {
                0u8
            },
    )
}

proof fn lemma_byte_position(width: int, height: int, k: int)
    requires
        width > 0,
        height >= 0,
        0 <= k < width * height * 4,
    ensures
        0 <= (k / 4) / width < height,
        0 <= (k / 4) % width < width,
        0 <= k % 4 < 4,
        byte_index(width, (k / 4) / width, (k / 4) % width, k % 4) == k,
{
    let p = k / 4;
    vstd::arithmetic::div_mod::lemma_fundamental_div_mod(k, 4);
    vstd::arithmetic::div_mod::lemma_fundamental_div_mod(p, width);
    assert(p < width * height) by (nonlinear_arith)
        requires
            p == k / 4,
            0 <= k < width * height * 4,
    ;
    assert(p / width < height) by (nonlinear_arith)
        requires
            0 <= p < width * height,
            width > 0,
    ;
    assert(0 <= p / width) by (nonlinear_arith)
        requires
            0 <= p,
            width > 0,
    ;
}

proof fn lemma_image_bytes(data: Seq<u8>, label: char, width: int, height: int, color: [u8; 4])
    requires
        width >= 0,
        height >= 0,
        data.len() == width * height * 4,
        forall|row: int, col: int, c: int|
            0 <= row < height && 0 <= col < width && 0 <= c < 4 ==> #[trigger] byte_at(
                data,
                width,
                row,
                col,
                c,
            ) == if glyph_covers(label, width, height, row, col) {
                color[c]
            } else {
                0
            },
    ensures
        data == label_image(label, width, height, color),
{
    let img = label_image(label, width, height, color);
    if width == 0 {
        assert(data.len() == 0);
        assert(data =~= img);
    } else {
        assert forall|k: int| 0 <= k < data.len() implies data[k] == img[k] by {
            lemma_byte_position(width, height, k);
            assert(byte_at(data, width, (k / 4) / width, (k / 4) % width, k % 4) == data[k]);
        }
        assert(data =~= img);
    }
}

/// Draws the glyph, scaled to fill and centered, into a fresh transparent RGBA buffer.
pub fn draw_label(label: char, width: u32, height: u32, color: [u8; 4]) -> (image: Rgba)
    requires
        width * height * 4 <= u32::MAX,
    ensures
        image.wf(),
        image.width == width,
        image.height == height,
        forall|row: int, col: int, c: int|
            0 <= row < height && 0 <= col < width && 0 <= c < 4 ==> #[trigger] byte_at(
                image.data@,
                width as int,
                row,
                col,
                c,
            ) == if glyph_covers(label, width as int, height as int, row, col) {
                color[c]
            } else {
                0
            },
        image.data@ == label_image(label, width as int, height as int, color),
{
    let mut image = Rgba::new(width, height);
    let glyph = glyph_for(label);
    let by_width = width / 5;
    let by_height = height / 7;
    let fit = if by_width < by_height { by_width } else { by_height };
    let scale: u32 = if fit > 1 { fit } else { 1 };
    proof {
        lemma_glyph_extent(width as int, height as int);
        assert(scale == glyph_scale(width as int, height as int));
    }
    let glyph_w: u64 = 5 * scale as u64;
    let glyph_h: u64 = 7 * scale as u64;
    let origin_x: u32 = if glyph_w < width as u64 { ((width as u64 - glyph_w) / 2) as u32 } else { 0 };
    let origin_y: u32 = if glyph_h < height as u64 { ((height as u64 - glyph_h) / 2) as u32 } else { 0 };
    assert(origin_x == glyph_origin_x(width as int, height as int));
    assert(origin_y == glyph_origin_y(width as int, height as int));
    let ghost w = width as int;
    let ghost h = height as int;
    proof {
        assert forall|row: int, col: int, c: int|
            0 <= row < height && 0 <= col < width && 0 <= c < 4 implies #[trigger] byte_at(
                image.data@,
                w,
                row,
                col,
                c,
            ) == if glyph_covers_upto(label, w, h, 0, row, col) {
                color[c]
            } else {
                0
            } by {
            lemma_byte_index_bounds(w, h, row, col, c);
        }
    }
    let mut gr: u32 = 0;
    while gr < 7
        invariant
            image.wf(),
            image.width == width,
            image.height == height,
            width * height * 4 <= u32::MAX,
            glyph == glyph_of(label),
            scale == glyph_scale(w, h),
            origin_x == glyph_origin_x(w, h),
            origin_y == glyph_origin_y(w, h),
            origin_x + 5 * scale <= max_int(w, 5),
            origin_y + 7 * scale <= max_int(h, 7),
            w == width,
            h == height,
            0 <= gr <= 7,
            forall|row: int, col: int, c: int|
                0 <= row < height && 0 <= col < width && 0 <= c < 4 ==> #[trigger] byte_at(
                    image.data@,
                    w,
                    row,
                    col,
                    c,
                ) == if glyph_covers_upto(label, w, h, gr * 5, row, col) {
                    color[c]
                } else {
                    0
                },
        decreases 7 - gr,
    {
        let mut gc: u32 = 0;
        while gc < 5
            invariant
                image.wf(),
                image.width == width,
                image.height == height,
                width * height * 4 <= u32::MAX,
                glyph == glyph_of(label),
                scale == glyph_scale(w, h),
                origin_x == glyph_origin_x(w, h),
                origin_y == glyph_origin_y(w, h),
                origin_x + 5 * scale <= max_int(w, 5),
                origin_y + 7 * scale <= max_int(h, 7),
                w == width,
                h == height,
                0 <= gr < 7,
                0 <= gc <= 5,
                forall|row: int, col: int, c: int|
                    0 <= row < height && 0 <= col < width && 0 <= c < 4 ==> #[trigger] byte_at(
                        image.data@,
                        w,
                        row,
                        col,
                        c,
                    ) == if glyph_covers_upto(label, w, h, gr * 5 + gc, row, col) {
                        color[c]
                    } else {
                        0
                    },
            decreases 5 - gc,
        {
            let ghost n = gr * 5 + gc;
            let ghost before = image.data@;
            proof {
                assert(gc * scale <= 4 * scale) by (nonlinear_arith)
                    requires
                        gc < 5,
                ;
                assert(gr * scale <= 6 * scale) by (nonlinear_arith)
                    requires
                        gr < 7,
                ;
            }
            let x = origin_x + gc * scale;
            let y = origin_y + gr * scale;
            if glyph[gr as usize][gc as usize] == 1 {
                image.fill_rect(x, y, scale, scale, color);
            }
            proof {
                assert forall|row: int, col: int, c: int|
                    0 <= row < height && 0 <= col < width && 0 <= c < 4 implies #[trigger] byte_at(
                        image.data@,
                        w,
                        row,
                        col,
                        c,
                    ) == if glyph_covers_upto(label, w, h, n + 1, row, col) {
                        color[c]
                    } else {
                        0
                    } by {
                    let here = glyph_cell_covers(label, w, h, gr as int, gc as int, row, col);
                    if here {
                        assert(glyph_covers_upto(label, w, h, n + 1, row, col));
                    } else if glyph_covers_upto(label, w, h, n + 1, row, col) {
                        let (a, b) = choose|a: int, b: int|
                            0 <= a < 7 && 0 <= b < 5 && a * 5 + b < n + 1
                                && #[trigger] glyph_cell_covers(label, w, h, a, b, row, col);
                        assert(a * 5 + b < n);
                        assert(glyph_covers_upto(label, w, h, n, row, col));
                    }
                    if glyph[gr as int][gc as int] == 1 {
                        assert(in_rect(x as int, y as int, scale as int, scale as int, row, col)
                            == here);
                    } else {
                        assert(!here);
                        assert(image.data@ == before);
                    }
                }
            }
            gc += 1;
        }
        gr += 1;
    }
    proof {
        lemma_image_bytes(image.data@, label, w, h, color);
    }
    image
}

/// `x` as four big-endian bytes.
pub open spec fn be32(x: u32) -> Seq<u8> {
    seq![
        (x / 0x100_0000) as u8,
        ((x / 0x1_0000) % 0x100) as u8,
        ((x / 0x100) % 0x100) as u8,
        (x % 0x100) as u8,
    ]
}

/// A PNG chunk: length, type, data, and the CRC-32 of type and data.
pub open spec fn png_chunk(kind: Seq<u8>, data: Seq<u8>) -> Seq<u8> {
    be32(data.len() as u32) + kind + data + be32(crc32_ieee(kind + data))
}

pub open spec fn png_signature() -> Seq<u8> {
    seq![0x89u8, 0x50u8, 0x4eu8, 0x47u8, 0x0du8, 0x0au8, 0x1au8, 0x0au8]
}

pub open spec fn ihdr_kind() -> Seq<u8> {
    seq![0x49u8, 0x48u8, 0x44u8, 0x52u8]
}

pub open spec fn idat_kind() -> Seq<u8> {
    seq![0x49u8, 0x44u8, 0x41u8, 0x54u8]
}

pub open spec fn iend_kind() -> Seq<u8> {
    seq![0x49u8, 0x45u8, 0x4eu8, 0x44u8]
}

/// IHDR data: width, height, 8-bit depth, color type 6 (RGBA), default compression, filter
/// and interlace.
pub open spec fn png_header(width: u32, height: u32) -> Seq<u8> {
    be32(width) + be32(height) + seq![8u8, 6u8, 0u8, 0u8, 0u8]
}

/// The first `rows` scanlines of an image, each `stride` bytes of pixels led by filter type 0.
pub open spec fn scanlines(data: Seq<u8>, stride: int, rows: int) -> Seq<u8>
    decreases rows,
{
    if rows <= 0 {
        Seq::empty()
    } else {
        scanlines(data, stride, rows - 1) + seq![0u8] + data.subrange(
            (rows - 1) * stride,
            rows * stride,
        )
    }
}

/// A PNG file with the given IDAT data: signature, IHDR, one IDAT, IEND.
pub open spec fn png_with_idat(width: u32, height: u32, idat: Seq<u8>) -> Seq<u8> {
    png_signature() + png_chunk(ihdr_kind(), png_header(width, height)) + png_chunk(
        idat_kind(),
        idat,
    ) + png_chunk(iend_kind(), Seq::empty())
}

/// The PNG file for an RGBA image, its scanlines zlib-compressed in one write, or `None` when
/// the compressor reports an error on the write or on finishing.
pub open spec fn png_file(width: u32, height: u32, data: Seq<u8>) -> Option<Seq<u8>> {
    let raw = scanlines(data, width * 4, height as int);
    if !zlib_write_succeeds(Seq::empty(), raw) {
        None
    } else {
        match zlib_finished(seq![raw]) {
            Some(idat) => Some(png_with_idat(width, height, idat)),
            None => None,
        }
    }
}

fn be32_bytes(x: u32) -> (b: [u8; 4])
    ensures
        b@ == be32(x),
{
    let b = [
        (x / 0x100_0000) as u8,
        ((x / 0x1_0000) % 0x100) as u8,
        ((x / 0x100) % 0x100) as u8,
        (x % 0x100) as u8,
    ];
    assert(b@ =~= be32(x));
    b
}

fn append_bytes(v: &mut Vec<u8>, s: &[u8])
    ensures
        final(v)@ == old(v)@ + s@,
{
    let n = s.len();
    let mut i: usize = 0;
    while i < n
        invariant
            n == s@.len(),
            0 <= i <= n,
            v@ == old(v)@ + s@.take(i as int),
        decreases n - i,
    {
        v.push(s[i]);
        i += 1;
        assert(s@.take(i as int) =~= s@.take(i - 1).push(s@[i - 1]));
    }
    assert(s@.take(n as int) =~= s@);
}

/// Appends one PNG chunk.
fn write_chunk(png: &mut Vec<u8>, kind: &[u8; 4], data: &[u8])
    ensures
        final(png)@ == old(png)@ + png_chunk(kind@, data@),
{
    let len = be32_bytes(data.len() as u32);
    append_bytes(png, &len);
    append_bytes(png, kind);
    append_bytes(png, data);
    let mut crc = crc_new();
    crc_update(&mut crc, kind);
    crc_update(&mut crc, data);
    let sum = be32_bytes(crc_sum(&crc));
    append_bytes(png, &sum);
    assert(Seq::<u8>::empty() + kind@ + data@ =~= kind@ + data@);
    assert(final(png)@ =~= old(png)@ + png_chunk(kind@, data@));
}

/// Encodes an RGBA buffer as a PNG (8-bit, color type 6), zlib-compressing the scanlines.
/// `None` when the compressor reports an error.
pub fn encode_png(image: &Rgba) -> (png: Option<Vec<u8>>)
    requires
        image.wf(),
        image.width > 0,
        image.width * image.height * 4 <= u32::MAX,
        image.width * 4 <= u32::MAX,
    ensures
        match png {
            Some(bytes) => png_file(image.width, image.height, image.data@) == Some(bytes@),
            None => png_file(image.width, image.height, image.data@) is None,
        },
{
    let stride = image.width * 4;
    let height = image.height;
    let mut raw: Vec<u8> = Vec::new();
    let mut row: u32 = 0;
    while row < height
        invariant
            image.wf(),
            image.width * image.height * 4 <= u32::MAX,
            stride == image.width * 4,
            height == image.height,
            0 <= row <= height,
            raw@ == scanlines(image.data@, stride as int, row as int),
        decreases height - row,
    {
        raw.push(0);
        proof {
            assert((row + 1) * stride <= height * stride) by (nonlinear_arith)
                requires
                    row < height,
                    stride >= 0,
            ;
            assert(height * stride == image.width * image.height * 4) by (nonlinear_arith)
                requires
                    stride == image.width * 4,
                    height == image.height,
            ;
        }
        assert(row * stride + stride == (row + 1) * stride) by (nonlinear_arith);
        assert(row * stride >= 0) by (nonlinear_arith)
            requires
                row >= 0,
                stride >= 0,
        ;
        let start = (row as usize) * (stride as usize);
        let end = start + stride as usize;
        let mut i = start;
        let ghost prefix = raw@;
        while i < end
            invariant
                image.wf(),
                start <= i <= end,
                end <= image.data@.len(),
                raw@ == prefix + image.data@.subrange(start as int, i as int),
            decreases end - i,
        {
            raw.push(image.data[i]);
            i += 1;
            assert(image.data@.subrange(start as int, i as int) =~= image.data@.subrange(
                start as int,
                i - 1,
            ).push(image.data@[i - 1]));
        }
        assert(start == row * stride);
        row += 1;
        assert(raw@ =~= scanlines(image.data@, stride as int, row as int));
    }

    let stream = zlib_encoder_fast();
    let stream = match zlib_write_all(stream, raw.as_slice()) {
        Some(s) => s,
        None => return None,
    };
    assert(Seq::<Seq<u8>>::empty().push(raw@) =~= seq![raw@]);
    let idat = match zlib_finish(stream) {
        Some(bytes) => bytes,
        None => return None,
    };
    Some(png_from_idat(image.width, image.height, idat.as_slice()))
}

/// Assembles a PNG file around compressed scanlines: signature, IHDR for an RGBA image of
/// `width` by `height`, one IDAT holding `idat`, IEND.
pub fn png_from_idat(width: u32, height: u32, idat: &[u8]) -> (png: Vec<u8>)
    ensures
        png@ == png_with_idat(width, height, idat@),
{
    let mut ihdr: Vec<u8> = Vec::new();
    append_bytes(&mut ihdr, &be32_bytes(width));
    append_bytes(&mut ihdr, &be32_bytes(height));
    append_bytes(&mut ihdr, &[8, 6, 0, 0, 0]);
    assert(ihdr@ =~= png_header(width, height));
    let mut png: Vec<u8> = Vec::new();
    append_bytes(&mut png, &[0x89, 0x50, 0x4e, 0x47, 0x0d, 0x0a, 0x1a, 0x0a]);
    let ihdr_tag: [u8; 4] = [0x49, 0x48, 0x44, 0x52];
    let idat_tag: [u8; 4] = [0x49, 0x44, 0x41, 0x54];
    let iend_tag: [u8; 4] = [0x49, 0x45, 0x4e, 0x44];
    assert(ihdr_tag@ =~= ihdr_kind());
    assert(idat_tag@ =~= idat_kind());
    assert(iend_tag@ =~= iend_kind());
    write_chunk(&mut png, &ihdr_tag, ihdr.as_slice());
    write_chunk(&mut png, &idat_tag, idat);
    let empty: [u8; 0] = [];
    write_chunk(&mut png, &iend_tag, &empty);
    assert(empty@ =~= Seq::<u8>::empty());
    assert(png@ =~= png_with_idat(width, height, idat@));
    png
}

/// The overlay for a pane over `rect` fits the arithmetic of drawing and encoding it: the
/// image size fits `u32`, with four bytes per pixel, and is at least one pixel wide.
pub open spec fn overlay_fits(rect: Rect, cell: CellSize) -> bool {
    let plan = plan_of(rect, cell);
    &&& plan_fits(rect, cell)
    &&& cell.width_px > 0
    &&& plan.image_width * plan.image_height * 4 <= u32::MAX
    &&& plan.image_width * 4 <= u32::MAX
}

/// The PNG drawn for a label over a plan, in the color picked by `index`, or `None` when the
/// compressor reports an error.
pub open spec fn overlay_png(label: char, plan: Plan, index: int) -> Option<Seq<u8>> {
    png_file(
        plan.image_width,
        plan.image_height,
        label_image(
            label,
            plan.image_width as int,
            plan.image_height as int,
            COLORS[index % 6],
        ),
    )
}

/// Builds the overlay for one labeled pane, `index` selecting its color. `None` when the
/// compressor reports an error.
pub fn overlay_for(target: &Target, cell: CellSize, index: usize) -> (overlay: Option<Overlay>)
    requires
        overlay_fits(target.rect, cell),
    ensures
        match overlay_png(target.label, plan_of(target.rect, cell), index as int) {
            Some(png) => overlay matches Some(o) && {
                let plan = plan_of(target.rect, cell);
                &&& o.pane_id@ == target.pane_id.0@
                &&& o.format@ == "png"@
                &&& o.image_width == plan.image_width
                &&& o.image_height == plan.image_height
                &&& o.z_index == LABEL_Z_INDEX
                &&& o.placement == plan.placement
                &&& o.data_base64@ == base64_standard(png)
            },
            None => overlay is None,
        },
{
    let plan = plan_placement(target.rect, cell);
    assert(plan.image_width > 0) by (nonlinear_arith)
        requires
            plan.image_width == plan.placement.grid_cols * cell.width_px,
            plan.placement.grid_cols >= 1,
            cell.width_px > 0,
    ;
    let color = COLORS[index % 6];
    let image = draw_label(target.label, plan.image_width, plan.image_height, color);
    let png = match encode_png(&image) {
        Some(bytes) => bytes,
        None => return None,
    };
    Some(
        Overlay {
            pane_id: target.pane_id.0.clone(),
            format: "png".to_owned(),
            image_width: plan.image_width,
            image_height: plan.image_height,
            data_base64: base64_encode(png.as_slice()),
            z_index: LABEL_Z_INDEX,
            placement: plan.placement,
        },
    )
}

/// Whether an overlay for a pane over `rect` fits the arithmetic of drawing it, as
/// [`overlay_for`] requires.
pub fn overlay_fits_exec(rect: Rect, cell: CellSize) -> (r: bool)
    ensures
        r == overlay_fits(rect, cell),
{
    let unit = plan_placement(rect, CellSize { width_px: 1, height_px: 1 });
    let cols = unit.placement.grid_cols as u128;
    let rows = unit.placement.grid_rows as u128;
    assert(cols * cell.width_px <= 16 * 0xffff_ffff) by (nonlinear_arith)
        requires
            0 <= cols <= 16,
            0 <= cell.width_px <= 0xffff_ffff,
    ;
    assert(rows * cell.height_px <= 20 * 0xffff_ffff) by (nonlinear_arith)
        requires
            0 <= rows <= 20,
            0 <= cell.height_px <= 0xffff_ffff,
    ;
    let width = cols * cell.width_px as u128;
    let height = rows * cell.height_px as u128;
    if width > 0xffff_ffff || height > 0xffff_ffff || cell.width_px == 0 {
        return false;
    }
    assert(width * height <= 0xffff_ffff * 0xffff_ffff) by (nonlinear_arith)
        requires
            width <= 0xffff_ffff,
            height <= 0xffff_ffff,
            width >= 0,
            height >= 0,
    ;
    width * height * 4 <= 0xffff_ffff && width * 4 <= 0xffff_ffff
}

proof fn lemma_glyph_index_in_range(label: char, from: int)
    ensures
        glyph_index_from(label, from) matches Some(i) ==> 0 <= i < 16,
    decreases 16 - from,
{
    if 0 <= from < 16 && GLYPHS[from].0 != label {
        lemma_glyph_index_in_range(label, from + 1);
    }
}

/// Every glyph lights a pixel in its top row.
proof fn lemma_glyph_top_row_lit(label: char)
    ensures
        exists|c: int| 0 <= c < 5 && #[trigger] glyph_of(label)[0][c] == 1,
{
    lemma_glyph_index_in_range(label, 0);
    let g = glyph_of(label);
    assert(forall|k: int|
        0 <= k < 16 ==> GLYPHS[k].1[0][0] == 1 || GLYPHS[k].1[0][1] == 1 || GLYPHS[k].1[0][2] == 1
            || GLYPHS[k].1[0][3] == 1);
    if g[0][0] == 1 {
        assert(g[0][0] == 1);
    } else if g[0][1] == 1 {
        assert(g[0][1] == 1);
    } else if g[0][2] == 1 {
        assert(g[0][2] == 1);
    } else {
        assert(g[0][3] == 1);
    }
}

/// A label drawn into an image of at least one glyph pixel per glyph cell colors some pixel.
pub proof fn law_drawn_label_marks_a_pixel(label: char, width: int, height: int)
    requires
        width >= 5,
        height >= 7,
    ensures
        exists|row: int, col: int|
            0 <= row < height && 0 <= col < width && #[trigger] glyph_covers(
                label,
                width,
                height,
                row,
                col,
            ),
{
    lemma_glyph_top_row_lit(label);
    let c = choose|c: int| 0 <= c < 5 && #[trigger] glyph_of(label)[0][c] == 1;
    let s = glyph_scale(width, height);
    let ox = glyph_origin_x(width, height);
    let oy = glyph_origin_y(width, height);
    assert(5 * s <= width && 7 * s <= height);
    assert(c * s <= 4 * s) by (nonlinear_arith)
        requires
            0 <= c < 5,
            s >= 1,
    ;
    assert(c * s >= 0) by (nonlinear_arith)
        requires
            0 <= c,
            s >= 1,
    ;
    let row = oy;
    let col = ox + c * s;
    assert(glyph_cell_covers(label, width, height, 0, c, row, col));
    assert(glyph_covers(label, width, height, row, col));
}

/// Each label of the alphabet is drawn with its own bitmap: the glyph for the i-th label is the
/// i-th entry of [`GLYPHS`], which is the entry for that label's character.
pub proof fn law_each_label_draws_its_own_glyph()
    ensures
        forall|i: int|
            0 <= i < 16 ==> #[trigger] GLYPHS[i].0 == crate::model::LABELS[i] && glyph_of(
                crate::model::LABELS[i],
            ) == GLYPHS[i].1,
{
    law_every_label_has_a_glyph();
    assert forall|i: int| 0 <= i < 16 implies #[trigger] GLYPHS[i].0 == crate::model::LABELS[i]
        && glyph_of(crate::model::LABELS[i]) == GLYPHS[i].1 by {
        assert(glyph_index_from(crate::model::LABELS[i], 0) == Some(i));
        reveal_with_fuel(glyph_index_from, 17);
        lemma_glyph_index_found(crate::model::LABELS[i], 0);
    }
}

proof fn lemma_glyph_index_found(label: char, from: int)
    ensures
        glyph_index_from(label, from) matches Some(i) ==> GLYPHS[i].0 == label,
    decreases 16 - from,
{
    if 0 <= from < 16 && GLYPHS[from].0 != label {
        lemma_glyph_index_found(label, from + 1);
    }
}

/// The glyph is scaled as large as fits and centered: in an image of at least 5 by 7 pixels,
/// each glyph pixel is an `s` by `s` square with `5 * s` no wider and `7 * s` no higher than the
/// image, one more would not fit, and the margins left and right, and above and below, differ
/// by at most one pixel.
pub proof fn law_glyph_scaled_and_centered(width: int, height: int)
    requires
        width >= 5,
        height >= 7,
    ensures
        ({
            let s = glyph_scale(width, height);
            let ox = glyph_origin_x(width, height);
            let oy = glyph_origin_y(width, height);
            &&& s >= 1
            &&& 5 * s <= width
            &&& 7 * s <= height
            &&& 5 * (s + 1) > width || 7 * (s + 1) > height
            &&& 2 * ox + 5 * s == width - (width - 5 * s) % 2
            &&& 2 * oy + 7 * s == height - (height - 7 * s) % 2
        }),
{
    let s = glyph_scale(width, height);
    let a = width / 5;
    let b = height / 7;
    assert(5 * a <= width < 5 * a + 5);
    assert(7 * b <= height < 7 * b + 7);
    assert(a >= 1 && b >= 1);
    assert(s == if a <= b { a } else { b });
    assert(5 * s <= width && 7 * s <= height);
}

/// The drawn pixels are exactly the glyph's, scaled and placed: pixel (`row`, `col`) is
/// covered exactly when it falls inside the glyph's box and the glyph pixel whose square it
/// falls in is on.
pub proof fn law_drawn_pixels_follow_the_glyph(label: char, width: int, height: int, row: int, col: int)
    requires
        width >= 0,
        height >= 0,
    ensures
        ({
            let s = glyph_scale(width, height);
            let ox = glyph_origin_x(width, height);
            let oy = glyph_origin_y(width, height);
            glyph_covers(label, width, height, row, col) <==> (oy <= row < oy + 7 * s && ox <= col
                < ox + 5 * s && glyph_of(label)[(row - oy) / s][(col - ox) / s] == 1)
        }),
{
    let s = glyph_scale(width, height);
    let ox = glyph_origin_x(width, height);
    let oy = glyph_origin_y(width, height);
    lemma_glyph_extent(width, height);
    if oy <= row < oy + 7 * s && ox <= col < ox + 5 * s {
        let gr = (row - oy) / s;
        let gc = (col - ox) / s;
        lemma_square_of(row - oy, s, 7);
        lemma_square_of(col - ox, s, 5);
        if glyph_of(label)[gr][gc] == 1 {
            assert(glyph_cell_covers(label, width, height, gr, gc, row, col));
            assert(gr * 5 + gc < 35);
        }
    }
    if glyph_covers(label, width, height, row, col) {
        let (gr, gc) = choose|gr: int, gc: int|
            0 <= gr < 7 && 0 <= gc < 5 && gr * 5 + gc < 35 && #[trigger] glyph_cell_covers(
                label,
                width,
                height,
                gr,
                gc,
                row,
                col,
            );
        lemma_square_index(row - oy, s, gr);
        lemma_square_index(col - ox, s, gc);
        assert(gr * s + s <= 7 * s) by (nonlinear_arith)
            requires
                gr < 7,
                s >= 1,
        ;
        assert(gc * s + s <= 5 * s) by (nonlinear_arith)
            requires
                gc < 5,
                s >= 1,
        ;
        assert(gr * s >= 0 && gc * s >= 0) by (nonlinear_arith)
            requires
                gr >= 0,
                gc >= 0,
                s >= 1,
        ;
    }
}

/// An offset below `n` squares of side `s` falls in square `x / s`, which is one of the `n`.
proof fn lemma_square_of(x: int, s: int, n: int)
    requires
        s >= 1,
        0 <= x < n * s,
    ensures
        0 <= x / s < n,
        (x / s) * s <= x < (x / s) * s + s,
{
    vstd::arithmetic::div_mod::lemma_fundamental_div_mod(x, s);
    vstd::arithmetic::div_mod::lemma_mod_bound(x, s);
    let q = x / s;
    assert(q * s == s * q) by (nonlinear_arith);
    assert(0 <= q < n) by (nonlinear_arith)
        requires
            x == s * q + x % s,
            0 <= x % s < s,
            0 <= x < n * s,
            s >= 1,
    ;
}

/// An offset inside square `g` of side `s` is `g` squares in.
proof fn lemma_square_index(x: int, s: int, g: int)
    requires
        s >= 1,
        g * s <= x < g * s + s,
    ensures
        x / s == g,
{
    vstd::arithmetic::div_mod::lemma_fundamental_div_mod(x, s);
    vstd::arithmetic::div_mod::lemma_mod_bound(x, s);
    let q = x / s;
    assert(q == g) by (nonlinear_arith)
        requires
            x == s * q + x % s,
            0 <= x % s < s,
            g * s <= x < g * s + s,
            s >= 1,
    ;
}

} // verus!

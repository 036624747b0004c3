//! Grid layout: how many card cells fit on one sheet, and where each slot
//! index lands in pixels.

use vstd::prelude::*;
use vstd::arithmetic::div_mod::{
    lemma_div_is_ordered, lemma_div_is_ordered_by_denominator, lemma_div_non_zero,
    lemma_div_by_multiple, lemma_div_pos_is_pos, lemma_fundamental_div_mod,
    lemma_mod_division_less_than_divisor, lemma_div_plus_one, lemma_mod_multiples_vanish,
    lemma_multiply_divide_lt,
};

verus! {

/// Fixed linear scale between physical millimetres and pixels.
pub const PIXELS_PER_MM: u32 = 12;

/// Sheet pixel width: 210 mm at the fixed scale.
pub const SHEET_WIDTH: u32 = 210 * PIXELS_PER_MM;

/// Sheet pixel height: 297 mm at the fixed scale.
pub const SHEET_HEIGHT: u32 = 297 * PIXELS_PER_MM;

/// Minimum margin kept around a card cell, in millimetres.
pub const MIN_MARGIN_MM: u32 = 3;

/// Minimum margin in pixels.
pub const MIN_MARGIN_PX: u32 = MIN_MARGIN_MM * PIXELS_PER_MM;

/// A configuration whose cards do not fit on the sheet: the grid would get
/// zero columns or zero rows, naming the offending dimension.
#[derive(Clone, Copy, Debug, PartialEq, Eq, Structural)]
pub enum GridError {
    ZeroColumns,
    ZeroRows,
}

/// The computed layout of one sheet: grid extent, usable card cell size,
/// cell pitch and the centering margins, all in pixels.
#[derive(Clone, Copy, Debug, PartialEq, Eq, Structural)]
pub struct Grid {
    pub columns: u32,
    pub rows: u32,
    pub cards_per_page: u32,
    pub card_width: u32,
    pub card_height: u32,
    pub pitch_x: u32,
    pub pitch_y: u32,
    pub margin_x: u32,
    pub margin_y: u32,
}

/// One resolved placement: the page a slot index falls on and the pixel
/// position of its top-left corner there.
#[derive(Clone, Copy, Debug, PartialEq, Eq, Structural)]
pub struct Placement {
    pub page: u32,
    pub x: u32,
    pub y: u32,
}

/// The pixel pitch one requested card side occupies: the requested size in
/// pixels, clamped below by twice the minimum margin.
pub open spec fn spec_pitch(mm: u32) -> int {
    if mm * PIXELS_PER_MM < 2 * MIN_MARGIN_PX {
        2 * (MIN_MARGIN_PX as int)
    } else {
        (mm * PIXELS_PER_MM) as int
    }
}

/// The grid that a pair of requested card sides yields, by the layout rules:
/// both the column count and the row count divide the sheet's width by the
/// respective pitch, and margins center the cells within their pitch.
pub open spec fn spec_grid(w_mm: u32, h_mm: u32) -> Grid {
    let pw = spec_pitch(w_mm);
    let ph = spec_pitch(h_mm);
    let columns = SHEET_WIDTH as int / pw;
    let rows = SHEET_WIDTH as int / ph;
    let pitch_x = SHEET_WIDTH as int / columns;
    let pitch_y = SHEET_HEIGHT as int / rows;
    let card_width = pw - 2 * MIN_MARGIN_PX;
    let card_height = ph - 2 * MIN_MARGIN_PX;
    Grid {
        columns: columns as u32,
        rows: rows as u32,
        cards_per_page: (columns * rows) as u32,
        card_width: card_width as u32,
        card_height: card_height as u32,
        pitch_x: pitch_x as u32,
        pitch_y: pitch_y as u32,
        margin_x: ((pitch_x - card_width) / 2) as u32,
        margin_y: ((pitch_y - card_height) / 2) as u32,
    }
}

impl Grid {
    /// Well-formedness: at least one cell in each direction, a consistent
    /// page capacity, cells (margins included) within their pitch, and the
    /// whole grid within the sheet.
    pub open spec fn wf(self) -> bool {
        &&& 1 <= self.columns
        &&& 1 <= self.rows
        &&& 1 <= self.cards_per_page
        &&& self.cards_per_page == self.columns * self.rows
        &&& self.card_width + 2 * self.margin_x <= self.pitch_x
        &&& self.card_height + 2 * self.margin_y <= self.pitch_y
        &&& self.columns * self.pitch_x <= SHEET_WIDTH
        &&& self.rows * self.pitch_y <= SHEET_HEIGHT
    }

    /// Derives the grid for the requested card size, in millimetres.
    ///
    /// Succeeds exactly when both pitches fit the sheet's width (the row
    /// count, like the column count, is taken from the sheet's width); a
    /// request that does not fit names the dimension that overflowed.
    pub fn compute(card_w_mm: u32, card_h_mm: u32) -> (r: Result<Grid, GridError>)
        ensures
            r is Ok <==> spec_pitch(card_w_mm) <= SHEET_WIDTH && spec_pitch(card_h_mm)
                <= SHEET_WIDTH,
            r == Err::<Grid, GridError>(GridError::ZeroColumns) <==> spec_pitch(card_w_mm)
                > SHEET_WIDTH,
            r == Err::<Grid, GridError>(GridError::ZeroRows) <==> (spec_pitch(card_w_mm)
                <= SHEET_WIDTH && spec_pitch(card_h_mm) > SHEET_WIDTH),
            r matches Ok(g) ==> g == spec_grid(card_w_mm, card_h_mm) && g.wf(),
            r matches Ok(g) ==> 1 <= g.columns && 1 <= g.rows,
    {
        let two_margin: u32 = 2 * MIN_MARGIN_PX;
        proof {
            assert((card_w_mm as int) * (PIXELS_PER_MM as int) <= 0xFFFF_FFFF * 12)
                by (nonlinear_arith)
                requires
                    card_w_mm <= 0xFFFF_FFFFu32,
                    PIXELS_PER_MM == 12,
            ;
            assert((card_h_mm as int) * (PIXELS_PER_MM as int) <= 0xFFFF_FFFF * 12)
                by (nonlinear_arith)
                requires
                    card_h_mm <= 0xFFFF_FFFFu32,
                    PIXELS_PER_MM == 12,
            ;
        }
        let want_w: u64 = (card_w_mm as u64) * (PIXELS_PER_MM as u64);
        let want_h: u64 = (card_h_mm as u64) * (PIXELS_PER_MM as u64);
        let pitch_w64: u64 = if want_w < two_margin as u64 {
            two_margin as u64
        } else {
            want_w
        };
        let pitch_h64: u64 = if want_h < two_margin as u64 {
            two_margin as u64
        } else {
            want_h
        };
        if pitch_w64 > SHEET_WIDTH as u64 {
            return Err(GridError::ZeroColumns);
        }
        if pitch_h64 > SHEET_WIDTH as u64 {
            return Err(GridError::ZeroRows);
        }
        let pitch_w: u32 = pitch_w64 as u32;
        let pitch_h: u32 = pitch_h64 as u32;
        let card_width: u32 = pitch_w - two_margin;
        let card_height: u32 = pitch_h - two_margin;
        let columns: u32 = SHEET_WIDTH / pitch_w;
        let rows: u32 = SHEET_WIDTH / pitch_h;
        proof {
            lemma_div_non_zero(SHEET_WIDTH as int, pitch_w as int);
            lemma_div_non_zero(SHEET_WIDTH as int, pitch_h as int);
            lemma_div_is_ordered_by_denominator(
                SHEET_WIDTH as int,
                two_margin as int,
                pitch_w as int,
            );
            lemma_div_is_ordered_by_denominator(
                SHEET_WIDTH as int,
                two_margin as int,
                pitch_h as int,
            );
            assert(columns <= 35 && rows <= 35);
            assert(1 <= columns * rows <= 35 * 35) by (nonlinear_arith)
                requires
                    1 <= columns <= 35,
                    1 <= rows <= 35,
            ;
        }
        let pitch_x: u32 = SHEET_WIDTH / columns;
        let pitch_y: u32 = SHEET_HEIGHT / rows;
        proof {
            lemma_pitch_at_least(pitch_w as int);
            lemma_pitch_at_least(pitch_h as int);
            lemma_div_is_ordered(SHEET_WIDTH as int, SHEET_HEIGHT as int, rows as int);
            lemma_fundamental_div_mod(SHEET_WIDTH as int, columns as int);
            lemma_mod_division_less_than_divisor(SHEET_WIDTH as int, columns as int);
            lemma_fundamental_div_mod(SHEET_HEIGHT as int, rows as int);
            lemma_mod_division_less_than_divisor(SHEET_HEIGHT as int, rows as int);
        }
        let margin_x: u32 = (pitch_x - card_width) / 2;
        let margin_y: u32 = (pitch_y - card_height) / 2;
        let g = Grid {
            columns,
            rows,
            cards_per_page: columns * rows,
            card_width,
            card_height,
            pitch_x,
            pitch_y,
            margin_x,
            margin_y,
        };
        Ok(g)
    }
}

/// The sheet's width divided by the count of pitches that fit it is itself at
/// least one pitch: `SHEET_WIDTH / (SHEET_WIDTH / p) >= p`.
proof fn lemma_pitch_at_least(p: int)
    requires
        0 < p <= SHEET_WIDTH,
    ensures
        SHEET_WIDTH as int / (SHEET_WIDTH as int / p) >= p,
{
    let q = SHEET_WIDTH as int / p;
    lemma_div_non_zero(SHEET_WIDTH as int, p);
    lemma_fundamental_div_mod(SHEET_WIDTH as int, p);
    lemma_mod_division_less_than_divisor(SHEET_WIDTH as int, p);
    assert(p * q <= SHEET_WIDTH);
    lemma_div_is_ordered(p * q, SHEET_WIDTH as int, q);
    lemma_div_by_multiple(p, q);
    assert((p * q) / q == p);
}

/// The page a slot index falls on.
pub open spec fn slot_page(g: Grid, i: int) -> int {
    i / (g.cards_per_page as int)
}

/// The position of a slot index within its page.
pub open spec fn slot_pos(g: Grid, i: int) -> int {
    i % (g.cards_per_page as int)
}

/// The grid column of a slot index.
pub open spec fn slot_col(g: Grid, i: int) -> int {
    slot_pos(g, i) % (g.columns as int)
}

/// The grid row of a slot index.
pub open spec fn slot_row(g: Grid, i: int) -> int {
    slot_pos(g, i) / (g.columns as int)
}

/// The pixel x position of a slot index on its page.
pub open spec fn slot_x(g: Grid, i: int) -> int {
    g.margin_x + slot_col(g, i) * g.pitch_x
}

/// The pixel y position of a slot index on its page.
pub open spec fn slot_y(g: Grid, i: int) -> int {
    g.margin_y + slot_row(g, i) * g.pitch_y
}

/// The full placement of a slot index.
pub open spec fn place_of(g: Grid, i: int) -> Placement {
    Placement { page: slot_page(g, i) as u32, x: slot_x(g, i) as u32, y: slot_y(g, i) as u32 }
}

/// Bounds that every slot position obeys on a well-formed grid: the placed
/// cell lies within the sheet.
pub proof fn lemma_slot_in_sheet(g: Grid, i: int)
    requires
        g.wf(),
        0 <= i,
    ensures
        0 <= slot_page(g, i) <= i,
        0 <= slot_col(g, i) < g.columns,
        0 <= slot_row(g, i) < g.rows,
        g.margin_x <= slot_x(g, i),
        g.margin_y <= slot_y(g, i),
        slot_x(g, i) + g.card_width <= SHEET_WIDTH,
        slot_y(g, i) + g.card_height <= SHEET_HEIGHT,
{
    let c = g.cards_per_page as int;
    let cols = g.columns as int;
    let rows = g.rows as int;
    let px = g.pitch_x as int;
    let py = g.pitch_y as int;
    lemma_div_pos_is_pos(i, c);
    vstd::arithmetic::div_mod::lemma_div_nonincreasing(i, c);
    lemma_mod_division_less_than_divisor(i, c);
    let pos = slot_pos(g, i);
    lemma_mod_division_less_than_divisor(pos, cols);
    lemma_div_pos_is_pos(pos, cols);
    lemma_multiply_divide_lt(pos, cols, rows);
    let col = slot_col(g, i);
    let row = slot_row(g, i);
    assert(0 <= col * px && col * px + px <= cols * px) by (nonlinear_arith)
        requires
            0 <= col,
            col < cols,
            0 <= px,
    ;
    assert(0 <= row * py && row * py + py <= rows * py) by (nonlinear_arith)
        requires
            0 <= row,
            row < rows,
            0 <= py,
    ;
}

/// Resolves a slot index to its page and pixel position, per the layout
/// rules: position within the page by remainder, page by quotient, column
/// and row by remainder and quotient over the column count, pixels by
/// margin plus cell pitch.
pub fn map_slot(grid: &Grid, slot_index: u32) -> (r: Placement)
    requires
        grid.wf(),
    ensures
        r == place_of(*grid, slot_index as int),
        r.page as int == slot_page(*grid, slot_index as int),
        r.x as int == slot_x(*grid, slot_index as int),
        r.y as int == slot_y(*grid, slot_index as int),
        r.x + grid.card_width <= SHEET_WIDTH,
        r.y + grid.card_height <= SHEET_HEIGHT,
{
    proof {
        lemma_slot_in_sheet(*grid, slot_index as int);
    }
    let pos: u32 = slot_index % grid.cards_per_page;
    let page: u32 = slot_index / grid.cards_per_page;
    let col: u32 = pos % grid.columns;
    let row: u32 = pos / grid.columns;
    let x: u32 = grid.margin_x + col * grid.pitch_x;
    let y: u32 = grid.margin_y + row * grid.pitch_y;
    Placement { page, x, y }
}

/// The two consecutive slot indices that one source image occupies: image
/// number `k` takes slots `2k` and `2k + 1`.
pub fn slot_pair(image_number: u32) -> (r: (u32, u32))
    requires
        image_number < 0x8000_0000,
    ensures
        r.0 == 2 * image_number,
        r.1 == 2 * image_number + 1,
{
    (2 * image_number, 2 * image_number + 1)
}

/// Law: moving one full page forward changes only the page, not the pixel
/// position — `map_slot(i)` and `map_slot(i + cards_per_page)` agree on
/// `(x, y)` and differ by exactly one page.
pub proof fn lemma_same_position_next_page(g: Grid, i: int)
    requires
        g.wf(),
        0 <= i,
    ensures
        slot_page(g, i + g.cards_per_page) == slot_page(g, i) + 1,
        slot_x(g, i + g.cards_per_page) == slot_x(g, i),
        slot_y(g, i + g.cards_per_page) == slot_y(g, i),
{
    let c = g.cards_per_page as int;
    assert((c * 1 + i) % c == i % c) by {
        lemma_mod_multiples_vanish(1, i, c);
    }
    assert(1 + i / c == (c + i) / c) by {
        lemma_div_plus_one(i, c);
    }
}

/// Law: no overlap — two distinct slot indices that fall on the same page
/// occupy disjoint cells: their placements are separated by at least a full
/// card size along some axis.
pub proof fn lemma_no_overlap(g: Grid, i: int, j: int)
    requires
        g.wf(),
        0 <= i,
        0 <= j,
        i != j,
        slot_page(g, i) == slot_page(g, j),
    ensures
        slot_x(g, i) + g.card_width <= slot_x(g, j) || slot_x(g, j) + g.card_width <= slot_x(
            g,
            i,
        ) || slot_y(g, i) + g.card_height <= slot_y(g, j) || slot_y(g, j) + g.card_height
            <= slot_y(g, i),
{
    let c = g.cards_per_page as int;
    let cols = g.columns as int;
    lemma_slot_in_sheet(g, i);
    lemma_slot_in_sheet(g, j);
    assert(slot_pos(g, i) != slot_pos(g, j)) by {
        lemma_fundamental_div_mod(i, c);
        lemma_fundamental_div_mod(j, c);
    }
    assert(slot_col(g, i) != slot_col(g, j) || slot_row(g, i) != slot_row(g, j)) by {
        lemma_fundamental_div_mod(slot_pos(g, i), cols);
        lemma_fundamental_div_mod(slot_pos(g, j), cols);
    }
    if slot_col(g, i) < slot_col(g, j) {
        lemma_cols_apart(g, i, j);
    } else if slot_col(g, j) < slot_col(g, i) {
        lemma_cols_apart(g, j, i);
    } else if slot_row(g, i) < slot_row(g, j) {
        lemma_rows_apart(g, i, j);
    } else {
        lemma_rows_apart(g, j, i);
    }
}

/// A strictly larger column is at least one pitch — and so at least one
/// card width — further right.
proof fn lemma_cols_apart(g: Grid, i: int, j: int)
    requires
        g.wf(),
        0 <= i,
        0 <= j,
        slot_col(g, i) < slot_col(g, j),
    ensures
        slot_x(g, i) + g.card_width <= slot_x(g, j),
{
    let px = g.pitch_x as int;
    let ci = slot_col(g, i);
    let cj = slot_col(g, j);
    assert(ci * px + px <= cj * px) by (nonlinear_arith)
        requires
            ci < cj,
            0 <= px,
    ;
}

/// A strictly larger row is at least one pitch — and so at least one card
/// height — further down.
proof fn lemma_rows_apart(g: Grid, i: int, j: int)
    requires
        g.wf(),
        0 <= i,
        0 <= j,
        slot_row(g, i) < slot_row(g, j),
    ensures
        slot_y(g, i) + g.card_height <= slot_y(g, j),
{
    let py = g.pitch_y as int;
    let ri = slot_row(g, i);
    let rj = slot_row(g, j);
    assert(ri * py + py <= rj * py) by (nonlinear_arith)
        requires
            ri < rj,
            0 <= py,
    ;
}

} // verus!

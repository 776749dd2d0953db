//! Terminal geometry: fitting a picture into the cell grid.
//!
//! The terminal reports a pixel size and a cell grid; the picture must
//! fill the columns and the rows left above a fixed-height info panel,
//! preserving its aspect ratio, and sit centred in what remains.  All
//! of it is integer arithmetic: available pixels are floored, the
//! scaled dimensions are floored, and the cell footprint is a ceiling
//! division, which the contracts prove never exceeds the grid.

use vstd::prelude::*;

verus! {

/// The placement of one rendered picture: its pixel dimensions after
/// scaling, its footprint in terminal cells, and the top-left cell it
/// is drawn at (1-based).
#[derive(Debug, Clone, Copy, PartialEq, Eq, Structural)]
pub struct RenderFrame {
    pub target_w: u32,
    pub target_h: u32,
    pub cells_w: u16,
    pub cells_h: u16,
    pub col: u16,
    pub row: u16,
}

/// The rows left for the picture: the terminal height less the panel
/// and its border row.
pub open spec fn image_area_rows(term_h: int, panel_h: int) -> int {
    if term_h >= panel_h + 1 {
        term_h - panel_h - 1
    } else {
        0
    }
}

/// Horizontal pixels available: the columns used, at the terminal's
/// pixels per column.
pub open spec fn avail_px_w(term_w: int, win_px_w: int, win_cols: int) -> int {
    term_w * win_px_w / win_cols
}

/// Vertical pixels available above the panel.
pub open spec fn avail_px_h(term_h: int, panel_h: int, win_px_h: int, win_rows: int) -> int {
    image_area_rows(term_h, panel_h) * win_px_h / win_rows
}

/// The largest dimensions with the picture's aspect ratio that fit the
/// available pixel box: bound by width or by height, the other side
/// floored.
pub open spec fn fit_dims(aw: int, ah: int, iw: int, ih: int) -> (int, int) {
    if aw * ih <= ah * iw {
        (aw, ih * aw / iw)
    } else {
        (iw * ah / ih, ah)
    }
}

/// Cells covered by `px` pixels at `per_cells` cells per `win_px`
/// pixels, rounded up.
pub open spec fn cells_for(px: int, grid: int, win_px: int) -> int {
    (px * grid + win_px - 1) / win_px
}

/// Fits and centres a picture of `img_w` by `img_h` pixels.  The
/// terminal shows `term_w` by `term_h` cells; its window reports
/// `win_px_w` by `win_px_h` pixels over `win_cols` by `win_rows`
/// cells; `panel_h` rows at the bottom belong to the info panel.  The
/// footprint never exceeds the columns or the image-area rows, and the
/// frame is centred in the leftover space.
pub fn compute_frame(
    term_w: u16,
    term_h: u16,
    win_px_w: u16,
    win_px_h: u16,
    win_cols: u16,
    win_rows: u16,
    img_w: u32,
    img_h: u32,
    panel_h: u16,
) -> (fr: RenderFrame)
    requires
        win_px_w >= 1,
        win_px_h >= 1,
        win_cols >= 1,
        win_rows >= 1,
        img_w >= 1,
        img_h >= 1,
    ensures
        ({
            let aw = avail_px_w(term_w as int, win_px_w as int, win_cols as int);
            let ah = avail_px_h(term_h as int, panel_h as int, win_px_h as int, win_rows as int);
            let area = image_area_rows(term_h as int, panel_h as int);
            &&& (fr.target_w as int, fr.target_h as int) == fit_dims(
                aw,
                ah,
                img_w as int,
                img_h as int,
            )
            &&& fr.cells_w == cells_for(fr.target_w as int, win_cols as int, win_px_w as int)
            &&& fr.cells_h == cells_for(fr.target_h as int, win_rows as int, win_px_h as int)
            &&& fr.cells_w <= term_w
            &&& fr.cells_h <= area
            &&& fr.col == (term_w - fr.cells_w) / 2 + 1
            &&& fr.row == (area - fr.cells_h) / 2 + 1
        }),
{
    let area: u16 = if term_h > panel_h {
        term_h - panel_h - 1
    } else {
        0
    };
    proof {
        assert((term_w as int) * (win_px_w as int) <= 4294836225) by (nonlinear_arith)
            requires
                0 <= term_w as int <= 65535,
                0 <= win_px_w as int <= 65535,
        ;
        assert((area as int) * (win_px_h as int) <= 4294836225) by (nonlinear_arith)
            requires
                0 <= area as int <= 65535,
                0 <= win_px_h as int <= 65535,
        ;
    }
    let aw: u64 = (term_w as u64) * (win_px_w as u64) / (win_cols as u64);
    let ah: u64 = (area as u64) * (win_px_h as u64) / (win_rows as u64);
    proof {
        lemma_avail_bounded(term_w as int, win_px_w as int, win_cols as int);
        lemma_avail_bounded(area as int, win_px_h as int, win_rows as int);
        assert((aw as int) * (img_h as int) <= 4294836225 * 4294967295) by (nonlinear_arith)
            requires
                0 <= aw as int <= 4294836225,
                0 <= img_h as int <= 4294967295,
        ;
        assert((ah as int) * (img_w as int) <= 4294836225 * 4294967295) by (nonlinear_arith)
            requires
                0 <= ah as int <= 4294836225,
                0 <= img_w as int <= 4294967295,
        ;
        assert((img_h as int) * (aw as int) <= 4294836225 * 4294967295) by (nonlinear_arith)
            requires
                0 <= aw as int <= 4294836225,
                0 <= img_h as int <= 4294967295,
        ;
        assert((img_w as int) * (ah as int) <= 4294836225 * 4294967295) by (nonlinear_arith)
            requires
                0 <= ah as int <= 4294836225,
                0 <= img_w as int <= 4294967295,
        ;
    }
    let (tw, th): (u64, u64) = if (aw as u128) * (img_h as u128) <= (ah as u128) * (img_w
        as u128) {
        let th0: u128 = (img_h as u128) * (aw as u128) / (img_w as u128);
        proof {
            assert((img_h as int) * (aw as int) <= (img_w as int) * (ah as int))
                by (nonlinear_arith)
                requires
                    (aw as int) * (img_h as int) <= (ah as int) * (img_w as int),
            ;
            vstd::arithmetic::div_mod::lemma_multiply_divide_le(
                (img_h as int) * (aw as int),
                img_w as int,
                ah as int,
            );
            assert((img_h as int) * (aw as int) >= 0) by (nonlinear_arith)
                requires
                    img_h >= 0,
                    aw >= 0,
            ;
            vstd::arithmetic::div_mod::lemma_div_pos_is_pos(
                (img_h as int) * (aw as int),
                img_w as int,
            );
        }
        (aw, th0 as u64)
    } else {
        let tw0: u128 = (img_w as u128) * (ah as u128) / (img_h as u128);
        proof {
            assert((img_w as int) * (ah as int) <= (img_h as int) * (aw as int))
                by (nonlinear_arith)
                requires
                    (aw as int) * (img_h as int) > (ah as int) * (img_w as int),
            ;
            vstd::arithmetic::div_mod::lemma_multiply_divide_le(
                (img_w as int) * (ah as int),
                img_h as int,
                aw as int,
            );
            assert((img_w as int) * (ah as int) >= 0) by (nonlinear_arith)
                requires
                    img_w >= 0,
                    ah >= 0,
            ;
            vstd::arithmetic::div_mod::lemma_div_pos_is_pos(
                (img_w as int) * (ah as int),
                img_h as int,
            );
        }
        (tw0 as u64, ah)
    };
    proof {
        assert((tw as int) * (win_cols as int) <= 4294836225 * 65535) by (nonlinear_arith)
            requires
                0 <= tw as int <= 4294836225,
                0 <= win_cols as int <= 65535,
        ;
        assert((th as int) * (win_rows as int) <= 4294836225 * 65535) by (nonlinear_arith)
            requires
                0 <= th as int <= 4294836225,
                0 <= win_rows as int <= 65535,
        ;
    }
    let cw: u64 = (tw * (win_cols as u64) + (win_px_w as u64) - 1) / (win_px_w as u64);
    let ch: u64 = (th * (win_rows as u64) + (win_px_h as u64) - 1) / (win_px_h as u64);
    proof {
        lemma_cells_bounded(tw as int, term_w as int, win_px_w as int, win_cols as int);
        lemma_cells_bounded(th as int, area as int, win_px_h as int, win_rows as int);
    }
    let cells_w: u16 = cw as u16;
    let cells_h: u16 = ch as u16;
    RenderFrame {
        target_w: tw as u32,
        target_h: th as u32,
        cells_w,
        cells_h,
        col: (term_w - cells_w) / 2 + 1,
        row: (area - cells_h) / 2 + 1,
    }
}

/// The available pixels never exceed the grid size times the pixels
/// per cell, nor the product of the reported sizes.
proof fn lemma_avail_bounded(cells: int, win_px: int, grid: int)
    requires
        0 <= cells <= 65535,
        1 <= win_px <= 65535,
        1 <= grid,
    ensures
        0 <= cells * win_px / grid <= cells * win_px,
        0 <= cells * win_px <= 4294836225,
        cells * win_px / grid <= 4294836225,
{
    assert(0 <= cells * win_px <= 4294836225) by (nonlinear_arith)
        requires
            0 <= cells <= 65535,
            0 <= win_px <= 65535,
    ;
    vstd::arithmetic::div_mod::lemma_div_nonincreasing(cells * win_px, grid);
    vstd::arithmetic::div_mod::lemma_div_pos_is_pos(cells * win_px, grid);
}

/// A picture that fits the available pixels fits the grid: when `px`
/// is at most `cells * win_px / grid`, its ceiling footprint is at
/// most `cells`.
proof fn lemma_cells_bounded(px: int, cells: int, win_px: int, grid: int)
    requires
        0 <= px,
        0 <= cells,
        1 <= win_px,
        1 <= grid,
        px <= cells * win_px / grid,
    ensures
        0 <= (px * grid + win_px - 1) / win_px <= cells,
{
    let q = cells * win_px / grid;
    assert(grid * q <= cells * win_px) by {
        vstd::arithmetic::div_mod::lemma_fundamental_div_mod(cells * win_px, grid);
        vstd::arithmetic::div_mod::lemma_mod_bound(cells * win_px, grid);
        assert(cells * win_px >= 0) by (nonlinear_arith)
            requires
                cells >= 0,
                win_px >= 0,
        ;
    }
    assert(px * grid <= q * grid) by (nonlinear_arith)
        requires
            px <= q,
            grid >= 1,
    ;
    assert(q * grid == grid * q) by (nonlinear_arith);
    assert(px * grid + win_px - 1 <= cells * win_px + win_px - 1);
    vstd::arithmetic::div_mod::lemma_div_is_ordered(
        px * grid + win_px - 1,
        cells * win_px + win_px - 1,
        win_px,
    );
    assert((cells * win_px + win_px - 1) / win_px == cells + (win_px - 1) / win_px) by {
        vstd::arithmetic::div_mod::lemma_hoist_over_denominator(win_px - 1, cells, win_px as nat);
    }
    assert((win_px - 1) / win_px == 0) by {
        vstd::arithmetic::div_mod::lemma_basic_div(win_px - 1, win_px);
    }
    assert(px * grid >= 0) by (nonlinear_arith)
        requires
            px >= 0,
            grid >= 0,
    ;
    vstd::arithmetic::div_mod::lemma_div_pos_is_pos(px * grid + win_px - 1, win_px);
}

} // verus!

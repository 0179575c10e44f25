use crate::config::TableConfig;
use vstd::arithmetic::div_mod::lemma_div_is_ordered;
use vstd::arithmetic::div_mod::lemma_fundamental_div_mod_converse_div;
use vstd::prelude::*;

verus! {

/// First column whose right edge lies at or beyond `scroll_left`.
pub open spec fn spec_start_col(cfg: TableConfig, scroll_left: int) -> int {
    scroll_left / (cfg.cell_width as int)
}

/// Last visible column: the column under the viewport's right edge, clamped
/// to the last column of the grid.
pub open spec fn spec_end_col(cfg: TableConfig, scroll_left: int) -> int {
    let e = (scroll_left + cfg.visible_width) / (cfg.cell_width as int);
    if e <= cfg.columns - 1 {
        e
    } else {
        cfg.columns - 1
    }
}

/// First row whose bottom edge lies at or beyond `scroll_top`.
pub open spec fn spec_start_row(cfg: TableConfig, scroll_top: int) -> int {
    scroll_top / (cfg.cell_height as int)
}

/// Rows fetched for the content pane: the rows that fit the viewport,
/// rounded up, plus two rows of slack against popping at partial-pixel
/// scroll positions.
pub open spec fn spec_visible_rows(cfg: TableConfig) -> int {
    (cfg.visible_height + cfg.cell_height - 1) / (cfg.cell_height as int) + 2
}

/// Last row of the fetched window, clamped to the last row of the grid.
pub open spec fn spec_end_row(cfg: TableConfig, scroll_top: int) -> int {
    let e = spec_start_row(cfg, scroll_top) + spec_visible_rows(cfg);
    if e <= cfg.rows - 1 {
        e
    } else {
        cfg.rows - 1
    }
}

/// For `0 <= x < b * d`, the quotient `x / d` stays below `b`.
proof fn lemma_div_below(x: int, b: int, d: int)
    requires
        1 <= d,
        1 <= b,
        0 <= x < b * d,
    ensures
        x / d <= b - 1,
{
    lemma_div_is_ordered(x, b * d - 1, d);
    assert(b * d - 1 == (b - 1) * d + (d - 1)) by (nonlinear_arith);
    lemma_fundamental_div_mod_converse_div(b * d - 1, d, b - 1, d - 1);
}

/// The visible column window, inclusive on both ends.
pub fn col_range(cfg: &TableConfig, scroll_left: u64) -> (r: (u32, u32))
    requires
        cfg.wf(),
        cfg.columns >= 1,
        scroll_left <= cfg.spec_total_width(),
    ensures
        r.0 == spec_start_col(*cfg, scroll_left as int),
        r.1 == spec_end_col(*cfg, scroll_left as int),
        r.0 <= cfg.columns,
        r.1 <= cfg.columns - 1,
{
    let cw = cfg.cell_width as u64;
    let s = scroll_left / cw;
    proof {
        lemma_div_is_ordered(scroll_left as int, cfg.spec_total_width(), cw as int);
        lemma_fundamental_div_mod_converse_div(
            (cfg.columns as int) * (cw as int),
            cw as int,
            cfg.columns as int,
            0,
        );
    }
    let e = (scroll_left + cfg.visible_width as u64) / cw;
    let end = if e > (cfg.columns - 1) as u64 {
        cfg.columns - 1
    } else {
        e as u32
    };
    (s as u32, end)
}

/// The fetched row window, inclusive on both ends: `(start_row, end_row)`.
pub fn row_range(cfg: &TableConfig, scroll_top: u64) -> (r: (u32, u32))
    requires
        cfg.wf(),
        cfg.rows >= 1,
        scroll_top <= cfg.rows * cfg.cell_height,
    ensures
        r.0 == spec_start_row(*cfg, scroll_top as int),
        r.1 == spec_end_row(*cfg, scroll_top as int),
        r.1 <= cfg.rows - 1,
{
    let ch = cfg.cell_height as u64;
    let s = scroll_top / ch;
    proof {
        lemma_div_is_ordered(scroll_top as int, (cfg.rows as int) * (ch as int), ch as int);
        lemma_fundamental_div_mod_converse_div(
            (cfg.rows as int) * (ch as int),
            ch as int,
            cfg.rows as int,
            0,
        );
    }
    let visible = (cfg.visible_height as u64 + ch - 1) / ch + 2;
    let e = s + visible;
    let end = if e > (cfg.rows - 1) as u64 {
        cfg.rows - 1
    } else {
        e as u32
    };
    (s as u32, end)
}

/// For any scroll offset inside the grid's horizontal extent, the computed
/// column window is well-formed: `startCol <= endCol <= columns - 1`.
pub proof fn lemma_col_range_wf(cfg: TableConfig, scroll_left: int)
    requires
        cfg.wf(),
        cfg.columns >= 1,
        0 <= scroll_left < cfg.spec_total_width(),
    ensures
        spec_start_col(cfg, scroll_left) <= spec_end_col(cfg, scroll_left),
        spec_end_col(cfg, scroll_left) <= cfg.columns - 1,
{
    let cw = cfg.cell_width as int;
    lemma_div_below(scroll_left, cfg.columns as int, cw);
    lemma_div_is_ordered(scroll_left, scroll_left + cfg.visible_width, cw);
}

/// For any scroll offset inside the rows' vertical extent, the fetched row
/// window is well-formed: `startRow <= endRow <= rows - 1`.
pub proof fn lemma_row_range_wf(cfg: TableConfig, scroll_top: int)
    requires
        cfg.wf(),
        cfg.rows >= 1,
        0 <= scroll_top < cfg.rows * cfg.cell_height,
    ensures
        spec_start_row(cfg, scroll_top) <= spec_end_row(cfg, scroll_top),
        spec_end_row(cfg, scroll_top) <= cfg.rows - 1,
{
    let ch = cfg.cell_height as int;
    lemma_div_below(scroll_top, cfg.rows as int, ch);
    assert(spec_visible_rows(cfg) >= 0) by {
        vstd::arithmetic::div_mod::lemma_div_pos_is_pos(cfg.visible_height + ch - 1, ch);
    }
}

} // verus!

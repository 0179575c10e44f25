use crate::config::MAX_EXTENT;
use crate::config::TableConfig;
use crate::ops::cmds_of;
use crate::ops::lemma_cmds_append;
use crate::ops::Cmd;
use crate::ops::DrawOp;
use crate::ops::Rgb;
use crate::rowdata::rows_view;
use crate::rowdata::spec_cell;
use crate::rowdata::Row;
use crate::text::dec_chars;
use crate::text::dec_string;
use crate::viewport::col_range;
use crate::viewport::spec_end_col;
use crate::viewport::spec_start_col;
use vstd::arithmetic::div_mod::lemma_fundamental_div_mod_converse_div;
use vstd::arithmetic::mul::lemma_mul_inequality;
use vstd::prelude::*;

verus! {

/// Left screen edge of column `col` at horizontal scroll `sl`.
pub open spec fn spec_col_x(cfg: TableConfig, col: int, sl: int) -> int {
    col * cfg.cell_width - sl
}

/// Top screen edge of the row with window-local index `i`, where `adj` is
/// the scroll offset re-based so that local row 0 lands at its true scrolled
/// position.
pub open spec fn spec_row_y(cfg: TableConfig, i: int, adj: int) -> int {
    i * cfg.cell_height - adj
}

/// Whether a column starting at screen `x` intersects the viewport.
pub open spec fn spec_col_vis(cfg: TableConfig, x: int) -> bool {
    !(x + cfg.cell_width < 0 || x > cfg.visible_width)
}

/// Whether a row starting at screen `y` intersects the viewport.
pub open spec fn spec_row_vis(cfg: TableConfig, y: int) -> bool {
    !(y + cfg.cell_height < 0 || y > cfg.visible_height)
}

/// The header label of column `col`: `Col ` and the 1-based column number.
pub open spec fn spec_header_label(col: int) -> Seq<char> {
    seq!['C', 'o', 'l', ' '] + dec_chars(col + 1)
}

/// Label commands for the first `count` columns starting at `s`: one
/// centered text per column.
pub open spec fn spec_header_label_cmds(cfg: TableConfig, s: int, count: int, sl: int) -> Seq<Cmd>
    decreases count,
{
    if count <= 0 {
        Seq::empty()
    } else {
        let col = s + count - 1;
        spec_header_label_cmds(cfg, s, count - 1, sl) + seq![
            Cmd::FillText {
                text: spec_header_label(col),
                x: spec_col_x(cfg, col, sl) + cfg.cell_width / 2,
                y: cfg.header_height as int / 2,
            },
        ]
    }
}

/// Separator-line commands for the first `count` column boundaries starting
/// at `s`: one vertical line per boundary, batched into one path.
pub open spec fn spec_header_line_cmds(cfg: TableConfig, s: int, count: int, sl: int) -> Seq<Cmd>
    decreases count,
{
    if count <= 0 {
        Seq::empty()
    } else {
        let col = s + count - 1;
        let x = spec_col_x(cfg, col, sl);
        spec_header_line_cmds(cfg, s, count - 1, sl) + seq![
            Cmd::MoveTo { x, y: 0 },
            Cmd::LineTo { x, y: cfg.header_height as int },
        ]
    }
}

/// The whole header pass for columns `s..=e`: clear, background, one label
/// per column, and one stroked path holding every separator plus the bottom
/// border.
pub open spec fn spec_header_cmds(cfg: TableConfig, s: int, e: int, sl: int) -> Seq<Cmd> {
    seq![
        Cmd::ClearRect { x: 0, y: 0, w: cfg.visible_width as int, h: cfg.header_height as int },
        Cmd::SetFillColor { color: Rgb::HeaderBg },
        Cmd::FillRect { x: 0, y: 0, w: cfg.visible_width as int, h: cfg.header_height as int },
        Cmd::SetFillColor { color: Rgb::Text },
        Cmd::SetTextStyle,
    ] + spec_header_label_cmds(cfg, s, e - s + 1, sl) + seq![
        Cmd::SetStrokeColor { color: Rgb::GridLine },
        Cmd::BeginPath,
    ] + spec_header_line_cmds(cfg, s, e + 1 - s + 1, sl) + seq![
        Cmd::MoveTo { x: 0, y: cfg.header_height as int },
        Cmd::LineTo { x: cfg.visible_width as int, y: cfg.header_height as int },
        Cmd::Stroke,
    ]
}

/// Background-band command of the window-local row `i`: a full-width fill
/// when the row has the parity of this pass and intersects the viewport.
pub open spec fn spec_band_row(cfg: TableConfig, i: int, parity: int, adj: int) -> Seq<Cmd> {
    let y = spec_row_y(cfg, i, adj);
    if i % 2 == parity && spec_row_vis(cfg, y) {
        seq![
            Cmd::FillRect { x: 0, y, w: cfg.visible_width as int, h: cfg.cell_height as int },
        ]
    } else {
        Seq::empty()
    }
}

/// Background bands of the first `n` window-local rows.
pub open spec fn spec_band_cmds(cfg: TableConfig, n: int, parity: int, adj: int) -> Seq<Cmd>
    decreases n,
{
    if n <= 0 {
        Seq::empty()
    } else {
        spec_band_cmds(cfg, n - 1, parity, adj) + spec_band_row(cfg, n - 1, parity, adj)
    }
}

/// Text commands of one row for the first `count` columns starting at `s`:
/// the cell value (empty when the key is absent) centered in each visible
/// cell.
pub open spec fn spec_row_text_cmds(
    cfg: TableConfig,
    row: Seq<Seq<char>>,
    y: int,
    s: int,
    count: int,
    sl: int,
) -> Seq<Cmd>
    decreases count,
{
    if count <= 0 {
        Seq::empty()
    } else {
        let col = s + count - 1;
        let x = spec_col_x(cfg, col, sl);
        spec_row_text_cmds(cfg, row, y, s, count - 1, sl) + (if spec_col_vis(cfg, x) {
            seq![
                Cmd::FillText {
                    text: spec_cell(row, col),
                    x: x + cfg.cell_width / 2,
                    y: y + cfg.cell_height / 2,
                },
            ]
        } else {
            Seq::empty()
        })
    }
}

/// Text commands of the first `n` window-local rows, culled to the visible
/// rows and to columns `s..=e`.
pub open spec fn spec_text_cmds(
    cfg: TableConfig,
    data: Seq<Seq<Seq<char>>>,
    n: int,
    s: int,
    e: int,
    sl: int,
    adj: int,
) -> Seq<Cmd>
    decreases n,
{
    if n <= 0 {
        Seq::empty()
    } else {
        let y = spec_row_y(cfg, n - 1, adj);
        spec_text_cmds(cfg, data, n - 1, s, e, sl, adj) + (if spec_row_vis(cfg, y) {
            spec_row_text_cmds(cfg, data[n - 1], y, s, e - s + 1, sl)
        } else {
            Seq::empty()
        })
    }
}

/// Border commands of one row for the first `count` columns starting at `s`:
/// one stroked rectangle per visible cell.
pub open spec fn spec_border_row_cmds(cfg: TableConfig, y: int, s: int, count: int, sl: int) -> Seq<
    Cmd,
>
    decreases count,
{
    if count <= 0 {
        Seq::empty()
    } else {
        let col = s + count - 1;
        let x = spec_col_x(cfg, col, sl);
        spec_border_row_cmds(cfg, y, s, count - 1, sl) + (if spec_col_vis(cfg, x) {
            seq![
                Cmd::StrokeRect {
                    x,
                    y,
                    w: cfg.cell_width as int,
                    h: cfg.cell_height as int,
                },
            ]
        } else {
            Seq::empty()
        })
    }
}

/// Border commands of the first `n` window-local rows.
pub open spec fn spec_border_cmds(cfg: TableConfig, n: int, s: int, e: int, sl: int, adj: int) -> Seq<
    Cmd,
>
    decreases n,
{
    if n <= 0 {
        Seq::empty()
    } else {
        let y = spec_row_y(cfg, n - 1, adj);
        spec_border_cmds(cfg, n - 1, s, e, sl, adj) + (if spec_row_vis(cfg, y) {
            spec_border_row_cmds(cfg, y, s, e - s + 1, sl)
        } else {
            Seq::empty()
        })
    }
}

/// The content-cell passes over `n` effective rows: even bands, odd bands,
/// text, then borders, each preceded by its style change.
pub open spec fn spec_cells_cmds(
    cfg: TableConfig,
    data: Seq<Seq<Seq<char>>>,
    n: int,
    s: int,
    e: int,
    sl: int,
    adj: int,
) -> Seq<Cmd> {
    seq![Cmd::SetFillColor { color: Rgb::EvenRow }] + spec_band_cmds(cfg, n, 0, adj) + seq![
        Cmd::SetFillColor { color: Rgb::OddRow },
    ] + spec_band_cmds(cfg, n, 1, adj) + seq![
        Cmd::SetFillColor { color: Rgb::Text },
        Cmd::SetTextStyle,
    ] + spec_text_cmds(cfg, data, n, s, e, sl, adj) + seq![
        Cmd::SetStrokeColor { color: Rgb::GridLine },
    ] + spec_border_cmds(cfg, n, s, e, sl, adj)
}

/// The whole content pass: a cleared viewport, then the cell passes over the
/// row window that the supplied slice covers.  The renderer re-derives its
/// own row window with one row of slack; a caller that fetched more rows
/// (the controller fetches two rows of slack) has the surplus culled here.
/// With no columns or no rows there is nothing to draw.
pub open spec fn spec_content_cmds(
    cfg: TableConfig,
    data: Seq<Seq<Seq<char>>>,
    sl: int,
    st: int,
    vsr: int,
) -> Seq<Cmd> {
    if cfg.columns == 0 || cfg.rows == 0 {
        Seq::empty()
    } else {
        let s = spec_start_col(cfg, sl);
        let e = spec_end_col(cfg, sl);
        let vis = (cfg.visible_height + cfg.cell_height - 1) / (cfg.cell_height as int) + 1;
        let end_row = if vsr + vis <= cfg.rows - 1 {
            vsr + vis
        } else {
            cfg.rows - 1
        };
        let window = end_row - vsr + 1;
        let n = if window <= data.len() {
            window
        } else {
            data.len() as int
        };
        let adj = st - vsr * cfg.cell_height;
        seq![
            Cmd::ClearRect {
                x: 0,
                y: 0,
                w: cfg.visible_width as int,
                h: cfg.visible_height as int,
            },
        ] + spec_cells_cmds(cfg, data, n, s, e, sl, adj)
    }
}

/// The header label string of column `col`.
fn header_label(col: u32) -> (s: String)
    ensures
        s@ == spec_header_label(col as int),
{
    let mut s = String::from_str("Col ");
    let d = dec_string(col as u64 + 1);
    s.append(d.as_str());
    proof {
        reveal_strlit("Col ");
        assert(s@ =~= spec_header_label(col as int));
    }
    s
}

/// Background-band pass: fills every row of one parity that intersects the
/// viewport, over the first `n_eff` window-local rows.
fn band_ops(cfg: &TableConfig, n_eff: u64, parity: u32, adj: i64) -> (ops: Vec<DrawOp>)
    requires
        cfg.wf(),
        n_eff <= cfg.rows,
        -(MAX_EXTENT as int) <= adj as int <= MAX_EXTENT as int,
    ensures
        cmds_of(ops@) == spec_band_cmds(*cfg, n_eff as int, parity as int, adj as int),
{
    let mut ops: Vec<DrawOp> = Vec::new();
    let mut i: u64 = 0;
    while i < n_eff
        invariant
            cfg.wf(),
            n_eff <= cfg.rows,
            -(MAX_EXTENT as int) <= adj as int <= MAX_EXTENT as int,
            i <= n_eff,
            cmds_of(ops@) == spec_band_cmds(*cfg, i as int, parity as int, adj as int),
        decreases n_eff - i,
    {
        proof {
            lemma_mul_inequality(i as int, cfg.rows as int, cfg.cell_height as int);
        }
        let y = i as i64 * cfg.cell_height as i64 - adj;
        let ghost pre = ops@;
        if (i % 2 == parity as u64) && !(y + (cfg.cell_height as i64) < 0 || y
            > cfg.visible_height as i64) {
            ops.push(
                DrawOp::FillRect {
                    x: 0,
                    y,
                    w: cfg.visible_width as u64,
                    h: cfg.cell_height as u64,
                },
            );
        }
        proof {
            assert(cmds_of(ops@) =~= cmds_of(pre) + spec_band_row(*cfg, i as int, parity as int, adj as int));
            assert(cmds_of(ops@) =~= spec_band_cmds(*cfg, i as int + 1, parity as int, adj as int));
        }
        i = i + 1;
    }
    ops
}

/// Text pass of one row: the cell value centered in each visible cell of
/// columns `start_col..=end_col`.
fn row_text_ops(cfg: &TableConfig, row: &Row, y: i64, start_col: u32, end_col: u32, scroll_left: u64) -> (ops: Vec<DrawOp>)
    requires
        cfg.wf(),
        start_col <= cfg.columns,
        end_col < cfg.columns,
        scroll_left <= cfg.spec_total_width(),
        -2 * (MAX_EXTENT as int) <= y as int <= 2 * (MAX_EXTENT as int),
    ensures
        cmds_of(ops@) == spec_row_text_cmds(
            *cfg,
            row@,
            y as int,
            start_col as int,
            end_col as int - start_col as int + 1,
            scroll_left as int,
        ),
{
    let mut ops: Vec<DrawOp> = Vec::new();
    let mut col: u64 = start_col as u64;
    while col <= end_col as u64
        invariant
            cfg.wf(),
            start_col <= cfg.columns,
            end_col < cfg.columns,
            scroll_left <= cfg.spec_total_width(),
            -2 * (MAX_EXTENT as int) <= y as int <= 2 * (MAX_EXTENT as int),
            col >= start_col,
            col == start_col || col <= end_col as u64 + 1,
            cmds_of(ops@) == spec_row_text_cmds(
                *cfg,
                row@,
                y as int,
                start_col as int,
                col as int - start_col as int,
                scroll_left as int,
            ),
        decreases end_col as int + 1 - col as int,
    {
        proof {
            lemma_mul_inequality(col as int, cfg.columns as int, cfg.cell_width as int);
        }
        let x = col as i64 * cfg.cell_width as i64 - scroll_left as i64;
        let ghost pre = ops@;
        if !(x + (cfg.cell_width as i64) < 0 || x > cfg.visible_width as i64) {
            let text = row.cell_text(col as u32);
            ops.push(
                DrawOp::FillText {
                    text,
                    x: x + cfg.cell_width as i64 / 2,
                    y: y + cfg.cell_height as i64 / 2,
                },
            );
        }
        proof {
            assert(cmds_of(ops@) =~= spec_row_text_cmds(
                *cfg,
                row@,
                y as int,
                start_col as int,
                col as int - start_col as int + 1,
                scroll_left as int,
            ));
        }
        col = col + 1;
    }
    ops
}

/// Text pass: every visible row of the window, culled per cell.
fn text_ops(
    cfg: &TableConfig,
    data: &Vec<Row>,
    n_eff: u64,
    start_col: u32,
    end_col: u32,
    scroll_left: u64,
    adj: i64,
) -> (ops: Vec<DrawOp>)
    requires
        cfg.wf(),
        n_eff <= cfg.rows,
        n_eff <= data@.len(),
        start_col <= cfg.columns,
        end_col < cfg.columns,
        scroll_left <= cfg.spec_total_width(),
        -(MAX_EXTENT as int) <= adj as int <= MAX_EXTENT as int,
    ensures
        cmds_of(ops@) == spec_text_cmds(
            *cfg,
            rows_view(data@),
            n_eff as int,
            start_col as int,
            end_col as int,
            scroll_left as int,
            adj as int,
        ),
{
    let mut ops: Vec<DrawOp> = Vec::new();
    let mut i: u64 = 0;
    while i < n_eff
        invariant
            cfg.wf(),
            n_eff <= cfg.rows,
            n_eff <= data@.len(),
            start_col <= cfg.columns,
            end_col < cfg.columns,
            scroll_left <= cfg.spec_total_width(),
            -(MAX_EXTENT as int) <= adj as int <= MAX_EXTENT as int,
            i <= n_eff,
            cmds_of(ops@) == spec_text_cmds(
                *cfg,
                rows_view(data@),
                i as int,
                start_col as int,
                end_col as int,
                scroll_left as int,
                adj as int,
            ),
        decreases n_eff - i,
    {
        proof {
            lemma_mul_inequality(i as int, cfg.rows as int, cfg.cell_height as int);
        }
        let y = i as i64 * cfg.cell_height as i64 - adj;
        let ghost pre = ops@;
        if !(y + (cfg.cell_height as i64) < 0 || y > cfg.visible_height as i64) {
            let row = &data[i as usize];
            let mut more = row_text_ops(cfg, row, y, start_col, end_col, scroll_left);
            proof {
                assert(rows_view(data@)[i as int] == data@[i as int]@);
            }
            ops.append(&mut more);
            proof {
                lemma_cmds_append(pre, ops@.subrange(pre.len() as int, ops@.len() as int));
                assert(ops@ =~= pre + ops@.subrange(pre.len() as int, ops@.len() as int));
            }
        }
        proof {
            assert(cmds_of(ops@) =~= spec_text_cmds(
                *cfg,
                rows_view(data@),
                i as int + 1,
                start_col as int,
                end_col as int,
                scroll_left as int,
                adj as int,
            ));
        }
        i = i + 1;
    }
    ops
}

/// Border pass of one row: one stroked rectangle per visible cell.
fn border_row_ops(cfg: &TableConfig, y: i64, start_col: u32, end_col: u32, scroll_left: u64) -> (ops: Vec<DrawOp>)
    requires
        cfg.wf(),
        start_col <= cfg.columns,
        end_col < cfg.columns,
        scroll_left <= cfg.spec_total_width(),
    ensures
        cmds_of(ops@) == spec_border_row_cmds(
            *cfg,
            y as int,
            start_col as int,
            end_col as int - start_col as int + 1,
            scroll_left as int,
        ),
{
    let mut ops: Vec<DrawOp> = Vec::new();
    let mut col: u64 = start_col as u64;
    while col <= end_col as u64
        invariant
            cfg.wf(),
            start_col <= cfg.columns,
            end_col < cfg.columns,
            scroll_left <= cfg.spec_total_width(),
            col >= start_col,
            col == start_col || col <= end_col as u64 + 1,
            cmds_of(ops@) == spec_border_row_cmds(
                *cfg,
                y as int,
                start_col as int,
                col as int - start_col as int,
                scroll_left as int,
            ),
        decreases end_col as int + 1 - col as int,
    {
        proof {
            lemma_mul_inequality(col as int, cfg.columns as int, cfg.cell_width as int);
        }
        let x = col as i64 * cfg.cell_width as i64 - scroll_left as i64;
        let ghost pre = ops@;
        if !(x + (cfg.cell_width as i64) < 0 || x > cfg.visible_width as i64) {
            ops.push(
                DrawOp::StrokeRect {
                    x,
                    y,
                    w: cfg.cell_width as u64,
                    h: cfg.cell_height as u64,
                },
            );
        }
        proof {
            assert(cmds_of(ops@) =~= spec_border_row_cmds(
                *cfg,
                y as int,
                start_col as int,
                col as int - start_col as int + 1,
                scroll_left as int,
            ));
        }
        col = col + 1;
    }
    ops
}

/// Border pass: the cell borders of every visible row of the window.
fn border_ops(
    cfg: &TableConfig,
    n_eff: u64,
    start_col: u32,
    end_col: u32,
    scroll_left: u64,
    adj: i64,
) -> (ops: Vec<DrawOp>)
    requires
        cfg.wf(),
        n_eff <= cfg.rows,
        start_col <= cfg.columns,
        end_col < cfg.columns,
        scroll_left <= cfg.spec_total_width(),
        -(MAX_EXTENT as int) <= adj as int <= MAX_EXTENT as int,
    ensures
        cmds_of(ops@) == spec_border_cmds(
            *cfg,
            n_eff as int,
            start_col as int,
            end_col as int,
            scroll_left as int,
            adj as int,
        ),
{
    let mut ops: Vec<DrawOp> = Vec::new();
    let mut i: u64 = 0;
    while i < n_eff
        invariant
            cfg.wf(),
            n_eff <= cfg.rows,
            start_col <= cfg.columns,
            end_col < cfg.columns,
            scroll_left <= cfg.spec_total_width(),
            -(MAX_EXTENT as int) <= adj as int <= MAX_EXTENT as int,
            i <= n_eff,
            cmds_of(ops@) == spec_border_cmds(
                *cfg,
                i as int,
                start_col as int,
                end_col as int,
                scroll_left as int,
                adj as int,
            ),
        decreases n_eff - i,
    {
        proof {
            lemma_mul_inequality(i as int, cfg.rows as int, cfg.cell_height as int);
        }
        let y = i as i64 * cfg.cell_height as i64 - adj;
        let ghost pre = ops@;
        if !(y + (cfg.cell_height as i64) < 0 || y > cfg.visible_height as i64) {
            let mut more = border_row_ops(cfg, y, start_col, end_col, scroll_left);
            ops.append(&mut more);
            proof {
                lemma_cmds_append(pre, ops@.subrange(pre.len() as int, ops@.len() as int));
                assert(ops@ =~= pre + ops@.subrange(pre.len() as int, ops@.len() as int));
            }
        }
        proof {
            assert(cmds_of(ops@) =~= spec_border_cmds(
                *cfg,
                i as int + 1,
                start_col as int,
                end_col as int,
                scroll_left as int,
                adj as int,
            ));
        }
        i = i + 1;
    }
    ops
}

/// The rendering engine: stateless given its geometry.
pub struct TableRenderer {
    pub config: TableConfig,
}

impl TableRenderer {
    pub fn new(config: TableConfig) -> (r: TableRenderer)
        ensures
            r.config == config,
    {
        TableRenderer { config }
    }

    /// Total width of the grid in pixels.
    pub fn get_total_width(&self) -> (w: u64)
        requires
            self.config.wf(),
        ensures
            w as int == self.config.spec_total_width(),
    {
        self.config.columns as u64 * self.config.cell_width as u64
    }

    /// Total height of the grid in pixels, accumulated chunk by chunk (see
    /// `crate::height_chunks`); the chunked sum is proved equal to the naive
    /// product, which is what makes the chunking a pure precision measure.
    pub fn get_total_height(&self) -> (h: u64)
        requires
            self.config.wf(),
        ensures
            h as int == spec_chunked_height(
                self.config.rows as int,
                self.config.cell_height as int,
                self.config.header_height as int,
            ),
            h as int == self.config.spec_total_height(),
    {
        let rows = self.config.rows;
        let ch = self.config.cell_height as u64;
        let (full, rem) = crate::height_chunks(rows);
        proof {
            let c = crate::ROWS_PER_CHUNK as int;
            vstd::arithmetic::mul::lemma_mul_nonnegative(full as int, c);
            lemma_mul_inequality(full as int * c, rows as int, ch as int);
            lemma_mul_inequality(rem as int, rows as int, ch as int);
            assert(full as int * c * ch as int + rem as int * ch as int == rows as int
                * ch as int) by (nonlinear_arith)
                requires
                    rows as int == full as int * c + rem as int,
            ;
            lemma_fundamental_div_mod_converse_div(rows as int, c, full as int, rem as int);
            vstd::arithmetic::div_mod::lemma_fundamental_div_mod_converse_mod(
                rows as int,
                c,
                full as int,
                rem as int,
            );
            lemma_chunked_height_eq(
                rows as int,
                ch as int,
                self.config.header_height as int,
            );
        }
        let a = full as u64 * crate::ROWS_PER_CHUNK as u64 * ch;
        let b = rem as u64 * ch;
        a + b + self.config.header_height as u64
    }
}

impl TableRenderer {
    /// Draws the header band for columns `start_col..=end_col`: background,
    /// one centered label per column, and the separator path.
    pub(crate) fn render_header(&self, start_col: u32, end_col: u32, scroll_left: u64) -> (ops: Vec<
        DrawOp,
    >)
        requires
            self.config.wf(),
            self.config.columns >= 1,
            start_col <= self.config.columns,
            end_col < self.config.columns,
            scroll_left <= self.config.spec_total_width(),
        ensures
            cmds_of(ops@) == spec_header_cmds(
                self.config,
                start_col as int,
                end_col as int,
                scroll_left as int,
            ),
    {
        let cfg = &self.config;
        let mut ops: Vec<DrawOp> = Vec::new();
        ops.push(
            DrawOp::ClearRect {
                x: 0,
                y: 0,
                w: cfg.visible_width as u64,
                h: cfg.header_height as u64,
            },
        );
        ops.push(DrawOp::SetFillColor { color: Rgb::HeaderBg });
        ops.push(
            DrawOp::FillRect {
                x: 0,
                y: 0,
                w: cfg.visible_width as u64,
                h: cfg.header_height as u64,
            },
        );
        ops.push(DrawOp::SetFillColor { color: Rgb::Text });
        ops.push(DrawOp::SetTextStyle);
        let ghost head = cmds_of(ops@);
        proof {
            assert(head =~= seq![
                Cmd::ClearRect {
                    x: 0,
                    y: 0,
                    w: cfg.visible_width as int,
                    h: cfg.header_height as int,
                },
                Cmd::SetFillColor { color: Rgb::HeaderBg },
                Cmd::FillRect {
                    x: 0,
                    y: 0,
                    w: cfg.visible_width as int,
                    h: cfg.header_height as int,
                },
                Cmd::SetFillColor { color: Rgb::Text },
                Cmd::SetTextStyle,
            ]);
        }
        let mut col: u64 = start_col as u64;
        while col <= end_col as u64
            invariant
                cfg == &self.config,
                cfg.wf(),
                start_col <= cfg.columns,
                end_col < cfg.columns,
                scroll_left <= cfg.spec_total_width(),
                col >= start_col,
                col == start_col || col <= end_col as u64 + 1,
                cmds_of(ops@) == head + spec_header_label_cmds(
                    *cfg,
                    start_col as int,
                    col as int - start_col as int,
                    scroll_left as int,
                ),
            decreases end_col as int + 1 - col as int,
        {
            proof {
                lemma_mul_inequality(col as int, cfg.columns as int, cfg.cell_width as int);
            }
            let x = col as i64 * cfg.cell_width as i64 - scroll_left as i64;
            let text = header_label(col as u32);
            let ghost pre = ops@;
            let ghost cmd = (Cmd::FillText {
                text: text@,
                x: x as int + cfg.cell_width as int / 2,
                y: cfg.header_height as int / 2,
            });
            ops.push(
                DrawOp::FillText {
                    text,
                    x: x + cfg.cell_width as i64 / 2,
                    y: cfg.header_height as i64 / 2,
                },
            );
            proof {
                assert(cmds_of(ops@) =~= cmds_of(pre) + seq![cmd]);
                assert(head + spec_header_label_cmds(
                    *cfg,
                    start_col as int,
                    col as int - start_col as int + 1,
                    scroll_left as int,
                ) =~= (head + spec_header_label_cmds(
                    *cfg,
                    start_col as int,
                    col as int - start_col as int,
                    scroll_left as int,
                )) + seq![cmd]);
            }
            col = col + 1;
        }
        let ghost labels = spec_header_label_cmds(
            self.config,
            start_col as int,
            end_col as int - start_col as int + 1,
            scroll_left as int,
        );
        proof {
            assert(cmds_of(ops@) =~= head + labels);
        }
        ops.push(DrawOp::SetStrokeColor { color: Rgb::GridLine });
        ops.push(DrawOp::BeginPath);
        let ghost mid = cmds_of(ops@);
        proof {
            assert(mid =~= head + labels + seq![
                Cmd::SetStrokeColor { color: Rgb::GridLine },
                Cmd::BeginPath,
            ]);
        }
        let mut col2: u64 = start_col as u64;
        while col2 <= end_col as u64 + 1
            invariant
                cfg == &self.config,
                cfg.wf(),
                start_col <= cfg.columns,
                end_col < cfg.columns,
                scroll_left <= cfg.spec_total_width(),
                col2 >= start_col,
                col2 == start_col || col2 <= end_col as u64 + 2,
                cmds_of(ops@) == mid + spec_header_line_cmds(
                    *cfg,
                    start_col as int,
                    col2 as int - start_col as int,
                    scroll_left as int,
                ),
            decreases end_col as int + 2 - col2 as int,
        {
            proof {
                lemma_mul_inequality(col2 as int, cfg.columns as int, cfg.cell_width as int);
            }
            let x = col2 as i64 * cfg.cell_width as i64 - scroll_left as i64;
            let ghost pre = ops@;
            ops.push(DrawOp::MoveTo { x, y: 0 });
            ops.push(DrawOp::LineTo { x, y: cfg.header_height as i64 });
            proof {
                let pair = seq![
                    Cmd::MoveTo { x: x as int, y: 0 },
                    Cmd::LineTo { x: x as int, y: cfg.header_height as int },
                ];
                assert(cmds_of(ops@) =~= cmds_of(pre) + pair);
                assert(mid + spec_header_line_cmds(
                    *cfg,
                    start_col as int,
                    col2 as int - start_col as int + 1,
                    scroll_left as int,
                ) =~= (mid + spec_header_line_cmds(
                    *cfg,
                    start_col as int,
                    col2 as int - start_col as int,
                    scroll_left as int,
                )) + pair);
            }
            col2 = col2 + 1;
        }
        let ghost lines = spec_header_line_cmds(
            self.config,
            start_col as int,
            end_col as int + 1 - start_col as int + 1,
            scroll_left as int,
        );
        proof {
            assert(cmds_of(ops@) == mid + lines);
        }
        let ghost pre = ops@;
        ops.push(DrawOp::MoveTo { x: 0, y: cfg.header_height as i64 });
        ops.push(DrawOp::LineTo { x: cfg.visible_width as i64, y: cfg.header_height as i64 });
        ops.push(DrawOp::Stroke);
        proof {
            let tail = seq![
                Cmd::MoveTo { x: 0, y: cfg.header_height as int },
                Cmd::LineTo { x: cfg.visible_width as int, y: cfg.header_height as int },
                Cmd::Stroke,
            ];
            assert(cmds_of(ops@) =~= cmds_of(pre) + tail);
            assert(cmds_of(ops@) =~= spec_header_cmds(
                self.config,
                start_col as int,
                end_col as int,
                scroll_left as int,
            ));
        }
        ops
    }

    /// The four content-cell passes over the supplied row slice, with the
    /// window truncated to the rows the slice actually holds.
    #[verifier::rlimit(100)]
    fn render_content_cells(
        &self,
        data: &Vec<Row>,
        data_end_row: u32,
        start_col: u32,
        end_col: u32,
        scroll_left: u64,
        adjusted_scroll_top: i64,
    ) -> (ops: Vec<DrawOp>)
        requires
            self.config.wf(),
            self.config.rows >= 1,
            data_end_row < self.config.rows,
            start_col <= self.config.columns,
            end_col < self.config.columns,
            scroll_left <= self.config.spec_total_width(),
            -(MAX_EXTENT as int) <= adjusted_scroll_top as int <= MAX_EXTENT as int,
        ensures
            cmds_of(ops@) == spec_cells_cmds(
                self.config,
                rows_view(data@),
                spec_min(data_end_row as int + 1, data@.len() as int),
                start_col as int,
                end_col as int,
                scroll_left as int,
                adjusted_scroll_top as int,
            ),
    {
        let cfg = &self.config;
        let window = data_end_row as u64 + 1;
        let len = data.len() as u64;
        let n_eff: u64 = if len < window {
            len
        } else {
            window
        };
        let mut ops: Vec<DrawOp> = Vec::new();
        ops.push(DrawOp::SetFillColor { color: Rgb::EvenRow });
        let mut even = band_ops(cfg, n_eff, 0, adjusted_scroll_top);
        let ghost even_v = even@;
        ops.append(&mut even);
        ops.push(DrawOp::SetFillColor { color: Rgb::OddRow });
        let mut odd = band_ops(cfg, n_eff, 1, adjusted_scroll_top);
        let ghost odd_v = odd@;
        ops.append(&mut odd);
        ops.push(DrawOp::SetFillColor { color: Rgb::Text });
        ops.push(DrawOp::SetTextStyle);
        let mut text = text_ops(cfg, data, n_eff, start_col, end_col, scroll_left, adjusted_scroll_top);
        let ghost text_v = text@;
        ops.append(&mut text);
        ops.push(DrawOp::SetStrokeColor { color: Rgb::GridLine });
        let mut border = border_ops(cfg, n_eff, start_col, end_col, scroll_left, adjusted_scroll_top);
        let ghost border_v = border@;
        ops.append(&mut border);
        proof {
            assert(ops@ =~= seq![DrawOp::SetFillColor { color: Rgb::EvenRow }] + even_v + seq![
                DrawOp::SetFillColor { color: Rgb::OddRow },
            ] + odd_v + seq![
                DrawOp::SetFillColor { color: Rgb::Text },
                DrawOp::SetTextStyle,
            ] + text_v + seq![DrawOp::SetStrokeColor { color: Rgb::GridLine }] + border_v);
            assert(cmds_of(ops@) =~= spec_cells_cmds(
                self.config,
                rows_view(data@),
                n_eff as int,
                start_col as int,
                end_col as int,
                scroll_left as int,
                adjusted_scroll_top as int,
            ));
        }
        ops
    }

    /// Draws the content pane from a window of rows: clears the viewport,
    /// recomputes the visible column range from the horizontal scroll, and
    /// runs the cell passes with the scroll offset re-based so that local
    /// row 0 of the slice lands at its true scrolled position.
    pub fn render_content(
        &self,
        data: &Vec<Row>,
        scroll_left: u64,
        scroll_top: u64,
        visible_start_row: u32,
    ) -> (ops: Vec<DrawOp>)
        requires
            self.config.wf(),
            scroll_left <= self.config.spec_total_width(),
            scroll_top as int <= self.config.rows as int * self.config.cell_height as int,
            self.config.rows >= 1 ==> visible_start_row < self.config.rows,
        ensures
            cmds_of(ops@) == spec_content_cmds(
                self.config,
                rows_view(data@),
                scroll_left as int,
                scroll_top as int,
                visible_start_row as int,
            ),
    {
        let cfg = &self.config;
        if cfg.columns == 0 || cfg.rows == 0 {
            let ops: Vec<DrawOp> = Vec::new();
            proof {
                assert(cmds_of(ops@) =~= Seq::<Cmd>::empty());
            }
            return ops;
        }
        let mut ops: Vec<DrawOp> = Vec::new();
        ops.push(
            DrawOp::ClearRect {
                x: 0,
                y: 0,
                w: cfg.visible_width as u64,
                h: cfg.visible_height as u64,
            },
        );
        let (start_col, end_col) = col_range(cfg, scroll_left);
        let ch = cfg.cell_height as u64;
        let visible_rows = (cfg.visible_height as u64 + ch - 1) / ch + 1;
        let e = visible_start_row as u64 + visible_rows;
        let end_row: u32 = if e > (cfg.rows - 1) as u64 {
            cfg.rows - 1
        } else {
            e as u32
        };
        let data_end_row = end_row - visible_start_row;
        proof {
            lemma_mul_inequality(
                visible_start_row as int,
                cfg.rows as int,
                cfg.cell_height as int,
            );
        }
        let adj = scroll_top as i64 - visible_start_row as i64 * cfg.cell_height as i64;
        let mut cells = self.render_content_cells(
            data,
            data_end_row,
            start_col,
            end_col,
            scroll_left,
            adj,
        );
        let ghost cells_v = cells@;
        ops.append(&mut cells);
        proof {
            assert(ops@ =~= seq![
                DrawOp::ClearRect {
                    x: 0,
                    y: 0,
                    w: cfg.visible_width as u64,
                    h: cfg.visible_height as u64,
                },
            ] + cells_v);
            assert(cmds_of(ops@) =~= spec_content_cmds(
                self.config,
                rows_view(data@),
                scroll_left as int,
                scroll_top as int,
                visible_start_row as int,
            ));
        }
        ops
    }
}

/// The smaller of two integers.
pub open spec fn spec_min(a: int, b: int) -> int {
    if a <= b {
        a
    } else {
        b
    }
}

/// The chunked total-height formula: full chunks, then the remainder, then
/// the header band.
pub open spec fn spec_chunked_height(rows: int, ch: int, hh: int) -> int {
    let c = crate::ROWS_PER_CHUNK as int;
    (rows / c) * c * ch + (rows % c) * ch + hh
}

/// The chunked sum equals the naive product over the integers: chunking is
/// purely a floating-point precision measure in a consumer, never a change
/// of value.
pub proof fn lemma_chunked_height_eq(rows: int, ch: int, hh: int)
    requires
        rows >= 0,
        ch >= 0,
    ensures
        spec_chunked_height(rows, ch, hh) == rows * ch + hh,
{
    let c = crate::ROWS_PER_CHUNK as int;
    vstd::arithmetic::div_mod::lemma_fundamental_div_mod(rows, c);
    let q = rows / c;
    let r = rows % c;
    assert(q * c * ch + r * ch == rows * ch) by (nonlinear_arith)
        requires
            rows == c * q + r,
    ;
}

} // verus!

use canvas_grid::cache::SegmentCache;
use canvas_grid::config::TableConfig;
use canvas_grid::height_chunks;
use canvas_grid::manager::TableManager;
use canvas_grid::ops::css_color;
use canvas_grid::ops::grid_font;
use canvas_grid::ops::DrawOp;
use canvas_grid::ops::Rgb;
use canvas_grid::renderer::TableRenderer;
use canvas_grid::rowdata::cell_value;
use canvas_grid::rowdata::column_key;
use canvas_grid::rowdata::make_row;
use canvas_grid::rowdata::Row;
use canvas_grid::text::dec_string;
use canvas_grid::viewport::col_range;
use canvas_grid::viewport::row_range;
use canvas_grid::ROWS_PER_CHUNK;

fn demo_config() -> TableConfig {
    TableConfig::new(5, 100, 80, 24, 30, 400, 240)
}

fn fill_texts(ops: &[DrawOp]) -> Vec<String> {
    let mut out = Vec::new();
    for op in ops {
        if let DrawOp::FillText { text, .. } = op {
            out.push(text.clone());
        }
    }
    out
}

#[test]
fn total_width_is_columns_times_cell_width() {
    let mgr = TableManager::new(demo_config(), 20);
    assert_eq!(mgr.get_total_width(), 400);
    let r = TableRenderer::new(TableConfig::new(7, 3, 33, 10, 5, 100, 50));
    assert_eq!(r.get_total_width(), 231);
}

#[test]
fn total_height_matches_chunked_formula() {
    let mgr = TableManager::new(demo_config(), 20);
    assert_eq!(mgr.get_total_height(), 100 * 24 + 30);
    let big = TableRenderer::new(TableConfig::new(1, 4_000_000_000, 1, 3, 7, 1, 1));
    assert_eq!(big.get_total_height(), 4_000_000_000u64 * 3 + 7);
}

#[test]
fn height_chunks_splits_rows() {
    assert_eq!(height_chunks(10_000_001), (1, 1));
    assert_eq!(height_chunks(25_000_000), (2, 5_000_000));
    assert_eq!(height_chunks(42), (0, 42));
}

#[test]
fn chunked_float_sum_differs_from_naive_product() {
    // At ten million and one rows with a fractional cell height, summing
    // chunk by chunk gives a different double than the single huge product:
    // the chunk decomposition is observable, not a refactoring.
    let rows: u32 = 10_000_001;
    let cell_height: f64 = 0.1;
    let header: f64 = 30.0;
    let (full, rem) = height_chunks(rows);
    let chunked = full as f64 * ROWS_PER_CHUNK as f64 * cell_height + rem as f64 * cell_height
        + header;
    let naive = rows as f64 * cell_height + header;
    assert_ne!(chunked, naive);
    assert_eq!(chunked, 1000030.1);
}

#[test]
fn column_window_is_clamped() {
    let cfg = demo_config();
    assert_eq!(col_range(&cfg, 0), (0, 4));
    assert_eq!(col_range(&cfg, 100), (1, 4));
    assert_eq!(col_range(&cfg, 399), (4, 4));
}

#[test]
fn row_window_is_clamped_near_the_end() {
    let cfg = demo_config();
    // 240 / 24 = 10 rows fit, plus 2 rows of slack.
    assert_eq!(row_range(&cfg, 0), (0, 12));
    // Scrolled to row 95 of 100: the window clamps to the last row.
    assert_eq!(row_range(&cfg, 24 * 95), (95, 99));
}

#[test]
fn header_draws_one_label_per_visible_column() {
    let mgr = TableManager::new(demo_config(), 20);
    let ops = mgr.render_header(0);
    assert!(matches!(
        ops[0],
        DrawOp::ClearRect { x: 0, y: 0, w: 400, h: 30 }
    ));
    assert!(matches!(ops[1], DrawOp::SetFillColor { color: Rgb::HeaderBg }));
    let labels = fill_texts(&ops);
    assert_eq!(labels, vec!["Col 1", "Col 2", "Col 3", "Col 4", "Col 5"]);
    // One separator per column boundary plus the bottom border.
    let mut move_tos = 0;
    for op in &ops {
        if let DrawOp::MoveTo { .. } = op {
            move_tos += 1;
        }
    }
    assert_eq!(move_tos, 7);
}

#[test]
fn header_labels_are_centered_at_the_scrolled_position() {
    let mgr = TableManager::new(demo_config(), 20);
    let ops = mgr.render_header(100);
    let mut xs = Vec::new();
    for op in &ops {
        if let DrawOp::FillText { x, y, .. } = op {
            xs.push((*x, *y));
        }
    }
    // Columns 1..=4 visible at scrollLeft=100; x = col*80 - 100 + 40.
    assert_eq!(xs, vec![(20, 15), (100, 15), (180, 15), (260, 15)]);
}

#[test]
fn first_frame_fetches_only_segment_zero() {
    let mut mgr = TableManager::new(demo_config(), 20);
    let ops = mgr.render_content(0, 0);
    assert!(matches!(
        ops[0],
        DrawOp::ClearRect { x: 0, y: 0, w: 400, h: 240 }
    ));
    assert!(mgr.is_segment_cached(0));
    assert_eq!(mgr.cached_segment_count(), 1);
    let texts = fill_texts(&ops);
    // Renderer window: 240/24 rounded up plus one row, all 5 columns.
    assert_eq!(texts.len(), 11 * 5);
    assert_eq!(texts[0], "Data 1-1");
    assert_eq!(texts[4], "Data 1-5");
    assert_eq!(texts[5], "Data 2-1");
}

#[test]
fn scrolling_near_the_end_clamps_and_renders_last_rows() {
    let mut mgr = TableManager::new(demo_config(), 20);
    let ops = mgr.render_content(0, 24 * 95);
    // Rows 95..=99 live in segment 4 alone.
    assert!(mgr.is_segment_cached(4));
    assert_eq!(mgr.cached_segment_count(), 1);
    let texts = fill_texts(&ops);
    assert_eq!(texts.len(), 5 * 5);
    assert_eq!(texts[0], "Data 96-1");
    assert_eq!(texts[24], "Data 100-5");
}

#[test]
fn get_or_load_is_idempotent() {
    let mut mgr = TableManager::new(demo_config(), 20);
    let a = mgr.get_or_load_segment(2);
    let b = mgr.get_or_load_segment(2);
    assert_eq!(a.len(), 20);
    assert_eq!(a.len(), b.len());
    for (ra, rb) in a.iter().zip(b.iter()) {
        assert_eq!(ra.cells.len(), rb.cells.len());
        for (ca, cb) in ra.cells.iter().zip(rb.cells.iter()) {
            assert_eq!(ca, cb);
        }
    }
    // Rows 40..59, 1-based 41..60.
    assert_eq!(a[0].cells[0], "Data 41-1");
    assert_eq!(a[19].cells[4], "Data 60-5");
}

#[test]
fn far_segments_are_evicted_and_near_ones_kept() {
    let cfg = TableConfig::new(2, 1000, 10, 10, 10, 20, 20);
    let mut mgr = TableManager::new(cfg, 1);
    for idx in 0..=11u32 {
        let _ = mgr.get_or_load_segment(idx);
    }
    // Loading segment 11 found 11 cached entries: segments 0..=8 are far
    // (distance > 2), so all but the newest 5 of them (4..=8) were evicted.
    for idx in 0..=3u32 {
        assert!(!mgr.is_segment_cached(idx));
    }
    for idx in 4..=11u32 {
        assert!(mgr.is_segment_cached(idx));
    }
    assert_eq!(mgr.cached_segment_count(), 8);
}

#[test]
fn small_caches_never_evict() {
    let cfg = TableConfig::new(2, 1000, 10, 10, 10, 20, 20);
    let mut mgr = TableManager::new(cfg, 1);
    for idx in 0..=9u32 {
        let _ = mgr.get_or_load_segment(idx);
    }
    assert_eq!(mgr.cached_segment_count(), 10);
    for idx in 0..=9u32 {
        assert!(mgr.is_segment_cached(idx));
    }
}

#[test]
fn cache_reports_membership() {
    let mut cache = SegmentCache::new();
    assert_eq!(cache.len(), 0);
    assert!(!cache.contains_key(3));
    cache.insert(3, Vec::new());
    assert!(cache.contains_key(3));
    assert_eq!(cache.len(), 1);
}

#[test]
fn absent_column_key_renders_empty_string() {
    let cfg = demo_config();
    let row = make_row(&cfg, 0);
    assert_eq!(row.cell_text(0), "Data 1-1");
    assert_eq!(row.cell_text(99), "");
    // A row with fewer values than the grid has columns renders the missing
    // cells as empty text, not a fault.
    let renderer = TableRenderer::new(demo_config());
    let short = Row { cells: vec![String::from("only")] };
    let ops = renderer.render_content(&vec![short], 0, 0, 0);
    let texts = fill_texts(&ops);
    assert_eq!(texts.len(), 5);
    assert_eq!(texts[0], "only");
    assert_eq!(texts[1], "");
    assert_eq!(texts[4], "");
}

#[test]
fn synthetic_cell_values_and_keys() {
    assert_eq!(cell_value(0, 0), "Data 1-1");
    assert_eq!(cell_value(99, 4), "Data 100-5");
    assert_eq!(column_key(0), "col_0");
    assert_eq!(column_key(17), "col_17");
}

#[test]
fn decimal_rendering() {
    assert_eq!(dec_string(0), "0");
    assert_eq!(dec_string(7), "7");
    assert_eq!(dec_string(10), "10");
    assert_eq!(dec_string(123), "123");
    assert_eq!(dec_string(10_000_001), "10000001");
}

#[test]
fn palette_and_font_constants() {
    assert_eq!(css_color(Rgb::HeaderBg), "#f2f2f2");
    assert_eq!(css_color(Rgb::Text), "#333");
    assert_eq!(css_color(Rgb::EvenRow), "#ffffff");
    assert_eq!(css_color(Rgb::OddRow), "#f9f9f9");
    assert_eq!(css_color(Rgb::GridLine), "#ddd");
    assert_eq!(grid_font(), "14px sans-serif");
}

#[test]
fn content_passes_alternate_row_bands() {
    let mut mgr = TableManager::new(demo_config(), 20);
    let ops = mgr.render_content(0, 0);
    // After the clear: even-band fill color, even fills, odd-band fill
    // color, odd fills, text color, text style, texts, stroke color,
    // borders.
    assert!(matches!(ops[1], DrawOp::SetFillColor { color: Rgb::EvenRow }));
    let mut even_fills = 0;
    let mut i = 2;
    while let DrawOp::FillRect { .. } = ops[i] {
        even_fills += 1;
        i += 1;
    }
    // Window rows 0..=10 fit the 11-row renderer window; 6 are even.
    assert_eq!(even_fills, 6);
    assert!(matches!(ops[i], DrawOp::SetFillColor { color: Rgb::OddRow }));
    let mut stroke_rects = 0;
    for op in &ops {
        if let DrawOp::StrokeRect { .. } = op {
            stroke_rects += 1;
        }
    }
    assert_eq!(stroke_rects, 11 * 5);
}

#[test]
fn one_frame_loads_each_window_segment_once() {
    let mut mgr = TableManager::new(demo_config(), 5);
    let _ = mgr.render_content(0, 0);
    // The window rows 0..=12 span segments 0, 1 and 2 and nothing else.
    assert_eq!(mgr.cached_segment_count(), 3);
    for idx in 0..=2u32 {
        assert!(mgr.is_segment_cached(idx));
    }
    assert!(!mgr.is_segment_cached(3));
}

use crate::cache::count_far;
use crate::cache::FAR_KEEP;
use crate::cache::NEAR_DISTANCE;
use crate::cache::TRIGGER_SIZE;
use crate::cache::lemma_prune_count_far;
use crate::cache::lemma_prune_id;
use crate::cache::lemma_prune_keeps_near;
use crate::cache::lemma_prune_subset;
use crate::cache::spec_drop_budget;
use crate::cache::spec_far;
use crate::cache::spec_keys;
use crate::cache::SegmentCache;
use crate::config::TableConfig;
use crate::ops::cmds_of;
use crate::ops::Cmd;
use crate::ops::DrawOp;
use crate::renderer::spec_chunked_height;
use crate::renderer::spec_content_cmds;
use crate::renderer::spec_header_cmds;
use crate::renderer::TableRenderer;
use crate::rowdata::duplicate_rows;
use crate::rowdata::make_segment;
use crate::rowdata::rows_view;
use crate::rowdata::spec_row;
use crate::rowdata::spec_segment;
use crate::rowdata::Row;
use crate::viewport::col_range;
use crate::viewport::row_range;
use crate::viewport::spec_end_col;
use crate::viewport::spec_end_row;
use crate::viewport::spec_start_col;
use crate::viewport::spec_start_row;
use vstd::arithmetic::div_mod::lemma_div_is_ordered;
use vstd::arithmetic::div_mod::lemma_div_pos_is_pos;
use vstd::arithmetic::div_mod::lemma_fundamental_div_mod;
use vstd::arithmetic::div_mod::lemma_mod_bound;
use vstd::prelude::*;

verus! {

/// Commands of one header draw request: nothing with no columns, otherwise
/// the header pass over the visible column range.
pub open spec fn spec_frame_header_cmds(cfg: TableConfig, sl: int) -> Seq<Cmd> {
    if cfg.columns == 0 {
        Seq::empty()
    } else {
        spec_header_cmds(cfg, spec_start_col(cfg, sl), spec_end_col(cfg, sl), sl)
    }
}

/// The ordered slice of rows a content draw request assembles: rows
/// `startRow..=endRow` of the synthetic data.
pub open spec fn spec_visible_slice(cfg: TableConfig, st: int) -> Seq<Seq<Seq<char>>> {
    let start = spec_start_row(cfg, st);
    let end = spec_end_row(cfg, st);
    Seq::new((end - start + 1) as nat, |k: int| spec_row(cfg, start + k))
}

/// Commands of one content draw request: nothing with no columns or rows,
/// otherwise the content pass over the assembled visible slice.
pub open spec fn spec_frame_content_cmds(cfg: TableConfig, sl: int, st: int) -> Seq<Cmd> {
    if cfg.columns == 0 || cfg.rows == 0 {
        Seq::empty()
    } else {
        spec_content_cmds(cfg, spec_visible_slice(cfg, st), sl, st, spec_start_row(cfg, st))
    }
}

/// The segment holding the first row of the window a content draw at
/// vertical scroll `st` fetches.
pub open spec fn spec_window_first_seg(cfg: TableConfig, ss: int, st: int) -> int {
    spec_start_row(cfg, st) / ss
}

/// The segment holding the last row of that window.
pub open spec fn spec_window_last_seg(cfg: TableConfig, ss: int, st: int) -> int {
    spec_end_row(cfg, st) / ss
}

/// The segments in `fs..=through` that `keys` does not yet hold, in
/// ascending order: exactly the segments a content draw over that window
/// inserts when no eviction runs.
pub open spec fn spec_missed_segs(keys: Seq<u32>, fs: int, through: int) -> Seq<u32>
    decreases through - fs + 1,
{
    if through < fs {
        Seq::empty()
    } else {
        spec_missed_segs(keys, fs, through - 1) + (if keys.contains(through as u32) {
            Seq::empty()
        } else {
            seq![through as u32]
        })
    }
}

/// Membership in a concatenation splits over its two halves.
pub proof fn lemma_concat_contains(a: Seq<u32>, b: Seq<u32>, k: u32)
    ensures
        (a + b).contains(k) <==> a.contains(k) || b.contains(k),
{
    if (a + b).contains(k) {
        let i = choose|i: int| 0 <= i < (a + b).len() && (a + b)[i] == k;
        if i < a.len() {
            assert(a[i] == k);
            assert(a.contains(k));
        } else {
            assert(b[i - a.len()] == k);
            assert(b.contains(k));
        }
    }
    if a.contains(k) {
        let i = choose|i: int| 0 <= i < a.len() && a[i] == k;
        assert((a + b)[i] == k);
        assert((a + b).contains(k));
    }
    if b.contains(k) {
        let i = choose|i: int| 0 <= i < b.len() && b[i] == k;
        assert((a + b)[a.len() + i] == k);
        assert((a + b).contains(k));
    }
}

/// The missed segments are exactly the window segments absent from `keys`.
pub proof fn lemma_missed_segs_contains(keys: Seq<u32>, fs: int, through: int, k: u32)
    requires
        0 <= fs,
        through <= 0xffff_ffff,
    ensures
        spec_missed_segs(keys, fs, through).contains(k) <==> (fs <= k as int <= through
            && !keys.contains(k)),
    decreases through - fs + 1,
{
    if through < fs {
        assert(!spec_missed_segs(keys, fs, through).contains(k));
    } else {
        lemma_missed_segs_contains(keys, fs, through - 1, k);
        let a = spec_missed_segs(keys, fs, through - 1);
        let b = if keys.contains(through as u32) {
            Seq::<u32>::empty()
        } else {
            seq![through as u32]
        };
        lemma_concat_contains(a, b, k);
        assert((through as u32) as int == through);
        if b.contains(k) {
            assert(b[0] == k);
            assert(k as int == through);
        }
        if fs <= k as int <= through && !keys.contains(k) && k as int == through {
            assert(through as u32 == k);
            assert(b =~= seq![k]);
            assert(b[0] == k);
            assert(b.contains(k));
        }
    }
}

/// At most one segment per window slot is missed.
pub proof fn lemma_missed_segs_len(keys: Seq<u32>, fs: int, through: int)
    ensures
        spec_missed_segs(keys, fs, through).len() <= (if through < fs {
            0
        } else {
            through - fs + 1
        }),
    decreases through - fs + 1,
{
    if through >= fs {
        lemma_missed_segs_len(keys, fs, through - 1);
    }
}

/// Owns the segment cache and the renderer; each draw request turns scroll
/// offsets into a row window, resolves the segments behind it, and hands the
/// assembled slice to the renderer.
pub struct TableManager {
    pub renderer: TableRenderer,
    pub data_cache: SegmentCache,
    pub segment_size: u32,
}

impl TableManager {
    /// The geometry is well-formed, segments are non-empty runs, and every
    /// cached segment holds exactly the synthetic content of its index.
    pub open spec fn wf(self) -> bool {
        &&& self.renderer.config.wf()
        &&& self.segment_size >= 1
        &&& self.data_cache.wf()
        &&& forall|i: int|
            0 <= i < self.data_cache.entries@.len() ==> rows_view(
                (#[trigger] self.data_cache.entries@[i]).1@,
            ) == spec_segment(
                self.renderer.config,
                self.segment_size as int,
                self.data_cache.entries@[i].0 as int,
            )
    }

    pub fn new(config: TableConfig, segment_size: u32) -> (m: TableManager)
        requires
            config.wf(),
            segment_size >= 1,
        ensures
            m.wf(),
            m.renderer.config == config,
            m.segment_size == segment_size,
            m.data_cache.entries@.len() == 0,
    {
        TableManager {
            renderer: TableRenderer::new(config),
            data_cache: SegmentCache::new(),
            segment_size,
        }
    }

    /// Total width of the grid in pixels.
    pub fn get_total_width(&self) -> (w: u64)
        requires
            self.wf(),
        ensures
            w as int == self.renderer.config.spec_total_width(),
    {
        self.renderer.get_total_width()
    }

    /// Total height of the grid in pixels, by the chunked sum.
    pub fn get_total_height(&self) -> (h: u64)
        requires
            self.wf(),
        ensures
            h as int == spec_chunked_height(
                self.renderer.config.rows as int,
                self.renderer.config.cell_height as int,
                self.renderer.config.header_height as int,
            ),
            h as int == self.renderer.config.spec_total_height(),
    {
        self.renderer.get_total_height()
    }

    /// Returns segment `segment_index`, generating and caching it on a miss;
    /// a miss that overfills the cache triggers the eviction pass relative
    /// to this segment.  The returned content is a pure function of the
    /// segment index and the geometry, so repeated calls agree.
    pub fn get_or_load_segment(&mut self, segment_index: u32) -> (seg: Vec<Row>)
        requires
            old(self).wf(),
        ensures
            final(self).wf(),
            final(self).renderer.config == old(self).renderer.config,
            final(self).segment_size == old(self).segment_size,
            rows_view(seg@) == spec_segment(
                old(self).renderer.config,
                old(self).segment_size as int,
                segment_index as int,
            ),
            final(self).data_cache.spec_contains(segment_index),
            old(self).data_cache.spec_contains(segment_index) ==> final(self).data_cache
                == old(self).data_cache,
            forall|i: int|
                0 <= i < old(self).data_cache.entries@.len() && !spec_far(
                    (#[trigger] old(self).data_cache.entries@[i]).0 as int,
                    segment_index as int,
                ) ==> final(self).data_cache.entries@.contains(old(self).data_cache.entries@[i]),
            forall|j: int|
                0 <= j < final(self).data_cache.entries@.len() ==> old(
                    self,
                ).data_cache.entries@.contains((#[trigger] final(self).data_cache.entries@[j]))
                    || final(self).data_cache.entries@[j].0 == segment_index,
            !old(self).data_cache.spec_contains(segment_index) && old(
                self,
            ).data_cache.entries@.len() > TRIGGER_SIZE && count_far(
                old(self).data_cache.entries@,
                segment_index as int,
            ) > FAR_KEEP ==> count_far(final(self).data_cache.entries@, segment_index as int)
                == FAR_KEEP,
            !old(self).data_cache.spec_contains(segment_index) && count_far(
                old(self).data_cache.entries@,
                segment_index as int,
            ) <= FAR_KEEP ==> spec_keys(final(self).data_cache.entries@) == spec_keys(
                old(self).data_cache.entries@,
            ).push(segment_index),
            !old(self).data_cache.spec_contains(segment_index) && old(
                self,
            ).data_cache.entries@.len() <= TRIGGER_SIZE ==> spec_keys(
                final(self).data_cache.entries@,
            ) == spec_keys(old(self).data_cache.entries@).push(segment_index),
    {
        let pos = self.data_cache.position(segment_index);
        match pos {
            Some(i) => {
                let seg = duplicate_rows(&self.data_cache.entries[i].1);
                proof {
                    assert(spec_keys(self.data_cache.entries@)[i as int] == segment_index);
                    assert(self.data_cache.spec_contains(segment_index));
                    assert forall|j: int|
                        0 <= j < self.data_cache.entries@.len() implies self
                        .data_cache
                        .entries@
                        .contains(#[trigger] self.data_cache.entries@[j]) by {}
                }
                seg
            },
            None => {
                let generated = make_segment(
                    &self.renderer.config,
                    self.segment_size,
                    segment_index,
                );
                let ghost orig = self.data_cache.entries@;
                if self.data_cache.len() as u64 > TRIGGER_SIZE {
                    self.data_cache.clean(segment_index);
                    proof {
                        let cur = segment_index as int;
                        let d = spec_drop_budget(orig, cur);
                        lemma_prune_subset(orig, cur, d);
                        lemma_prune_keeps_near(orig, cur, d);
                        if count_far(orig, cur) > 5 {
                            lemma_prune_count_far(orig, cur, d);
                        } else {
                            lemma_prune_id(orig, cur);
                        }
                    }
                } else {
                    proof {
                        lemma_prune_id(orig, segment_index as int);
                    }
                }
                proof {
                    assert forall|j: int|
                        0 <= j < self.data_cache.entries@.len() implies orig.contains(
                        #[trigger] self.data_cache.entries@[j],
                    ) by {
                        if self.data_cache.entries@ != orig {
                            lemma_prune_subset(
                                orig,
                                segment_index as int,
                                spec_drop_budget(orig, segment_index as int),
                            );
                        }
                    }
                    assert(!self.data_cache.spec_contains(segment_index)) by {
                        if self.data_cache.spec_contains(segment_index) {
                            let keys = spec_keys(self.data_cache.entries@);
                            let k = choose|k: int| 0 <= k < keys.len() && keys[k] == segment_index;
                            assert(self.data_cache.entries@[k].0 == segment_index);
                            assert(orig.contains(self.data_cache.entries@[k]));
                            let m = choose|m: int|
                                0 <= m < orig.len() && orig[m] == self.data_cache.entries@[k];
                            assert(spec_keys(orig)[m] == segment_index);
                        }
                    }
                }
                let seg = duplicate_rows(&generated);
                let ghost pruned = self.data_cache.entries@;
                self.data_cache.insert(segment_index, generated);
                proof {
                    assert forall|i: int|
                        0 <= i < self.data_cache.entries@.len() implies rows_view(
                        (#[trigger] self.data_cache.entries@[i]).1@,
                    ) == spec_segment(
                        self.renderer.config,
                        self.segment_size as int,
                        self.data_cache.entries@[i].0 as int,
                    ) by {
                        if i < pruned.len() {
                            assert(self.data_cache.entries@[i] == pruned[i]);
                            assert(orig.contains(pruned[i]));
                            let m = choose|m: int| 0 <= m < orig.len() && orig[m] == pruned[i];
                            assert(rows_view(orig[m].1@) == spec_segment(
                                self.renderer.config,
                                self.segment_size as int,
                                orig[m].0 as int,
                            ));
                        }
                    }
                    assert forall|i: int|
                        0 <= i < orig.len() && !spec_far(
                            (#[trigger] orig[i]).0 as int,
                            segment_index as int,
                        ) implies self.data_cache.entries@.contains(orig[i]) by {
                        assert(pruned.contains(orig[i]));
                        let m = choose|m: int| 0 <= m < pruned.len() && pruned[m] == orig[i];
                        assert(self.data_cache.entries@[m] == orig[i]);
                    }
                    assert forall|j: int|
                        0 <= j < self.data_cache.entries@.len() implies orig.contains(
                        (#[trigger] self.data_cache.entries@[j]),
                    ) || self.data_cache.entries@[j].0 == segment_index by {
                        if j < pruned.len() {
                            assert(self.data_cache.entries@[j] == pruned[j]);
                        }
                    }
                    assert(spec_keys(self.data_cache.entries@) =~= spec_keys(pruned).push(
                        segment_index,
                    ));
                    if count_far(orig, segment_index as int) > 5 && orig.len() > 10 {
                        assert(self.data_cache.entries@.drop_last() =~= pruned);
                        crate::cache::lemma_count_far_push_near(
                            pruned,
                            (segment_index, self.data_cache.entries@.last().1),
                            segment_index as int,
                        );
                    }
                }
                seg
            },
        }
    }

    /// Draws the header band for the columns visible at `scroll_left`; no
    /// data is fetched, labels come from the column index alone.  With no
    /// columns there is nothing to draw.
    pub fn render_header(&self, scroll_left: u64) -> (ops: Vec<DrawOp>)
        requires
            self.wf(),
            scroll_left as int <= self.renderer.config.spec_total_width(),
        ensures
            cmds_of(ops@) == spec_frame_header_cmds(self.renderer.config, scroll_left as int),
    {
        if self.renderer.config.columns == 0 {
            let ops: Vec<DrawOp> = Vec::new();
            proof {
                assert(cmds_of(ops@) =~= Seq::<Cmd>::empty());
            }
            return ops;
        }
        let (start_col, end_col) = col_range(&self.renderer.config, scroll_left);
        self.renderer.render_header(start_col, end_col, scroll_left)
    }

    /// Draws the content pane for the cells visible at the given scroll
    /// offsets: computes the row window, resolves each row through the
    /// segment cache (possibly generating and evicting), assembles the
    /// ordered visible slice, and delegates to the renderer.  With no
    /// columns or rows there is nothing to draw.
    pub fn render_content(&mut self, scroll_left: u64, scroll_top: u64) -> (ops: Vec<DrawOp>)
        requires
            old(self).wf(),
            scroll_left as int <= old(self).renderer.config.spec_total_width(),
            scroll_top == 0 || (scroll_top as int) < (old(self).renderer.config.rows as int)
                * (old(self).renderer.config.cell_height as int),
        ensures
            final(self).wf(),
            final(self).renderer.config == old(self).renderer.config,
            final(self).segment_size == old(self).segment_size,
            cmds_of(ops@) == spec_frame_content_cmds(
                old(self).renderer.config,
                scroll_left as int,
                scroll_top as int,
            ),
            (old(self).renderer.config.columns == 0 || old(self).renderer.config.rows == 0)
                ==> *final(self) == *old(self),
            old(self).renderer.config.columns > 0 && old(self).renderer.config.rows > 0
                ==> (forall|j: int|
                0 <= j < final(self).data_cache.entries@.len() ==> old(
                    self,
                ).data_cache.entries@.contains((#[trigger] final(self).data_cache.entries@[j])) || (
                spec_window_first_seg(
                    old(self).renderer.config,
                    old(self).segment_size as int,
                    scroll_top as int,
                ) <= final(self).data_cache.entries@[j].0 as int
                    && final(self).data_cache.entries@[j].0 as int <= spec_window_last_seg(
                    old(self).renderer.config,
                    old(self).segment_size as int,
                    scroll_top as int,
                ))),
            old(self).renderer.config.columns > 0 && old(self).renderer.config.rows > 0
                ==> (forall|i: int|
                0 <= i < old(self).data_cache.entries@.len() && !spec_far(
                    (#[trigger] old(self).data_cache.entries@[i]).0 as int,
                    spec_window_first_seg(
                        old(self).renderer.config,
                        old(self).segment_size as int,
                        scroll_top as int,
                    ),
                ) && !spec_far(
                    old(self).data_cache.entries@[i].0 as int,
                    spec_window_last_seg(
                        old(self).renderer.config,
                        old(self).segment_size as int,
                        scroll_top as int,
                    ),
                ) ==> final(self).data_cache.entries@.contains(old(self).data_cache.entries@[i])),
            old(self).renderer.config.columns > 0 && old(self).renderer.config.rows > 0 && old(
                self,
            ).data_cache.entries@.len() + (spec_window_last_seg(
                old(self).renderer.config,
                old(self).segment_size as int,
                scroll_top as int,
            ) - spec_window_first_seg(
                old(self).renderer.config,
                old(self).segment_size as int,
                scroll_top as int,
            )) <= TRIGGER_SIZE ==> spec_keys(final(self).data_cache.entries@) == spec_keys(
                old(self).data_cache.entries@,
            ) + spec_missed_segs(
                spec_keys(old(self).data_cache.entries@),
                spec_window_first_seg(
                    old(self).renderer.config,
                    old(self).segment_size as int,
                    scroll_top as int,
                ),
                spec_window_last_seg(
                    old(self).renderer.config,
                    old(self).segment_size as int,
                    scroll_top as int,
                ),
            ),
    {
        let ghost cfg0 = self.renderer.config;
        let ghost ss0 = self.segment_size;
        if self.renderer.config.columns == 0 || self.renderer.config.rows == 0 {
            let ops: Vec<DrawOp> = Vec::new();
            proof {
                assert(cmds_of(ops@) =~= Seq::<Cmd>::empty());
            }
            return ops;
        }
        let (start_row, end_row) = row_range(&self.renderer.config, scroll_top);
        proof {
            if scroll_top > 0 {
                crate::viewport::lemma_row_range_wf(cfg0, scroll_top as int);
            }
        }
        let ghost orig_entries = self.data_cache.entries@;
        let ghost fs0: int = start_row as int / ss0 as int;
        let ghost ls0: int = end_row as int / ss0 as int;
        let ghost mut last: int = fs0 - 1;
        proof {
            assert(fs0 == spec_window_first_seg(cfg0, ss0 as int, scroll_top as int));
            assert(ls0 == spec_window_last_seg(cfg0, ss0 as int, scroll_top as int));
            lemma_div_is_ordered(start_row as int, end_row as int, ss0 as int);
            lemma_div_pos_is_pos(start_row as int, ss0 as int);
            assert forall|i: int|
                0 <= i < orig_entries.len() implies self.data_cache.entries@.contains(
                #[trigger] orig_entries[i],
            ) by {
                assert(self.data_cache.entries@[i] == orig_entries[i]);
            }
            assert(spec_keys(orig_entries) + spec_missed_segs(
                spec_keys(orig_entries),
                fs0,
                fs0 - 1,
            ) =~= spec_keys(orig_entries));
        }
        let mut visible: Vec<Row> = Vec::new();
        let mut r: u32 = start_row;
        while r <= end_row
            invariant
                self.wf(),
                self.renderer.config == cfg0,
                self.segment_size == ss0,
                cfg0.wf(),
                cfg0.rows >= 1,
                ss0 >= 1,
                start_row <= r,
                r <= end_row + 1,
                end_row < cfg0.rows,
                visible@.len() == r - start_row,
                forall|k: int|
                    0 <= k < visible@.len() ==> (#[trigger] visible@[k])@ == spec_row(
                        cfg0,
                        start_row as int + k,
                    ),
                fs0 == start_row as int / ss0 as int,
                ls0 == end_row as int / ss0 as int,
                0 <= fs0,
                fs0 <= ls0,
                last == (if r == start_row {
                    fs0 - 1
                } else {
                    (r - 1) as int / ss0 as int
                }),
                fs0 - 1 <= last <= ls0,
                r == start_row ==> self.data_cache.entries@ == orig_entries,
                forall|j: int|
                    0 <= j < self.data_cache.entries@.len() ==> orig_entries.contains(
                        (#[trigger] self.data_cache.entries@[j]),
                    ) || (fs0 <= self.data_cache.entries@[j].0 as int
                        && self.data_cache.entries@[j].0 as int <= last),
                forall|i: int|
                    0 <= i < orig_entries.len() && !spec_far(
                        (#[trigger] orig_entries[i]).0 as int,
                        fs0,
                    ) && !spec_far(orig_entries[i].0 as int, last)
                        ==> self.data_cache.entries@.contains(orig_entries[i]),
                orig_entries.len() + (ls0 - fs0) <= TRIGGER_SIZE ==> spec_keys(
                    self.data_cache.entries@,
                ) == spec_keys(orig_entries) + spec_missed_segs(
                    spec_keys(orig_entries),
                    fs0,
                    last,
                ),
            decreases end_row as int + 1 - r as int,
        {
            let seg_idx = r / self.segment_size;
            let ghost pre_entries = self.data_cache.entries@;
            proof {
                lemma_div_is_ordered(start_row as int, r as int, ss0 as int);
                lemma_div_is_ordered(r as int, end_row as int, ss0 as int);
                if r > start_row {
                    lemma_div_is_ordered(start_row as int, r as int - 1, ss0 as int);
                    lemma_div_is_ordered(r as int - 1, r as int, ss0 as int);
                    vstd::arithmetic::div_mod::lemma_div_plus_one(r as int - 1, ss0 as int);
                    lemma_div_is_ordered(r as int, ss0 as int + r as int - 1, ss0 as int);
                }
                assert(last <= r as int / ss0 as int <= last + 1);
            }
            let seg = self.get_or_load_segment(seg_idx);
            let idx_in_seg = (r % self.segment_size) as usize;
            proof {
                lemma_fundamental_div_mod(r as int, ss0 as int);
                lemma_mod_bound(r as int, ss0 as int);
                vstd::arithmetic::mul::lemma_mul_is_commutative(seg_idx as int, ss0 as int);
                assert(seg_idx as int * ss0 as int + idx_in_seg as int == r as int);
                assert(seg@.len() == rows_view(seg@).len());
                assert(idx_in_seg < seg@.len());
            }
            if idx_in_seg < seg.len() {
                let row = seg[idx_in_seg].duplicate();
                proof {
                    assert(seg@[idx_in_seg as int]@ == rows_view(seg@)[idx_in_seg as int]);
                    assert(rows_view(seg@)[idx_in_seg as int] == spec_row(cfg0, r as int));
                }
                visible.push(row);
            }
            proof {
                let s = seg_idx as int;
                let cur = self.data_cache.entries@;
                assert forall|j: int|
                    0 <= j < cur.len() implies orig_entries.contains((#[trigger] cur[j])) || (
                fs0 <= cur[j].0 as int && cur[j].0 as int <= s) by {
                    if pre_entries.contains(cur[j]) {
                        let m = choose|m: int| 0 <= m < pre_entries.len() && pre_entries[m]
                            == cur[j];
                        assert(orig_entries.contains(pre_entries[m]) || (fs0
                            <= pre_entries[m].0 as int && pre_entries[m].0 as int <= last));
                    }
                }
                assert forall|i: int|
                    0 <= i < orig_entries.len() && !spec_far(
                        (#[trigger] orig_entries[i]).0 as int,
                        fs0,
                    ) && !spec_far(orig_entries[i].0 as int, s) implies cur.contains(
                    orig_entries[i],
                ) by {
                    assert(!spec_far(orig_entries[i].0 as int, last) || r == start_row);
                    assert(pre_entries.contains(orig_entries[i]));
                    let m = choose|m: int| 0 <= m < pre_entries.len() && pre_entries[m]
                        == orig_entries[i];
                    assert(cur.contains(pre_entries[m]));
                }
                if orig_entries.len() + (ls0 - fs0) <= TRIGGER_SIZE {
                    let okeys = spec_keys(orig_entries);
                    let miss_last = spec_missed_segs(okeys, fs0, last);
                    lemma_missed_segs_contains(okeys, fs0, last, seg_idx);
                    lemma_concat_contains(okeys, miss_last, seg_idx);
                    lemma_missed_segs_len(okeys, fs0, last);
                    if spec_keys(pre_entries).contains(seg_idx) {
                        assert(self.data_cache.entries@ == pre_entries);
                        if s == last + 1 {
                            assert(okeys.contains(seg_idx));
                            assert(spec_missed_segs(okeys, fs0, s) =~= miss_last);
                        }
                        assert(spec_keys(cur) == okeys + spec_missed_segs(okeys, fs0, s));
                    } else {
                        assert(s == last + 1);
                        assert(spec_keys(pre_entries).len() == pre_entries.len());
                        assert(pre_entries.len() <= orig_entries.len() + (s - fs0));
                        assert(spec_keys(cur) == spec_keys(pre_entries).push(seg_idx));
                        assert(!okeys.contains(seg_idx));
                        assert(spec_missed_segs(okeys, fs0, s) =~= miss_last + seq![seg_idx]);
                        assert(spec_keys(cur) =~= okeys + spec_missed_segs(okeys, fs0, s));
                    }
                }
                last = s;
            }
            r = r + 1;
        }
        let ops = self.renderer.render_content(&visible, scroll_left, scroll_top, start_row);
        proof {
            assert(rows_view(visible@) =~= spec_visible_slice(cfg0, scroll_top as int));
            assert(last == ls0);
        }
        ops
    }

    /// Whether a segment currently sits in the cache.
    pub fn is_segment_cached(&self, segment_index: u32) -> (b: bool)
        ensures
            b == self.data_cache.spec_contains(segment_index),
    {
        self.data_cache.contains_key(segment_index)
    }

    /// How many segments the cache currently holds.
    pub fn cached_segment_count(&self) -> (n: usize)
        ensures
            n == self.data_cache.entries@.len(),
    {
        self.data_cache.len()
    }
}

/// Loading a segment twice yields content-identical results: what either
/// call returns is the one synthetic content of that index under that
/// geometry, regardless of any eviction in between.
pub proof fn lemma_get_or_load_idempotent(
    cfg: TableConfig,
    segment_size: int,
    idx: int,
    first: Seq<Seq<Seq<char>>>,
    second: Seq<Seq<Seq<char>>>,
)
    requires
        first == spec_segment(cfg, segment_size, idx),
        second == spec_segment(cfg, segment_size, idx),
    ensures
        first == second,
{
}

} // verus!

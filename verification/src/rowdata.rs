use crate::config::TableConfig;
use crate::text::dec_chars;
use crate::text::dec_string;
use vstd::prelude::*;

verus! {

/// One record of the grid: a mapping from column key to textual cell value.
/// Column keys have the fixed shape `"col_" + j`, so the mapping is stored
/// positionally: `cells[j]` is the value under key `col_j`.  A key outside
/// `0..cells.len()` is absent, and looking it up yields the empty string.
pub struct Row {
    pub cells: Vec<String>,
}

impl View for Row {
    type V = Seq<Seq<char>>;

    open spec fn view(&self) -> Seq<Seq<char>> {
        self.cells@.map_values(|s: String| s@)
    }
}

/// The value of the cell under key `col_{col}`, or empty when absent.
pub open spec fn spec_cell(row: Seq<Seq<char>>, col: int) -> Seq<char> {
    if 0 <= col < row.len() {
        row[col]
    } else {
        Seq::empty()
    }
}

/// An absent column key renders as the empty string: the renderer's text
/// pass draws `spec_cell` for every visible cell, and `spec_cell` of a
/// column the row does not hold is the empty sequence — never a fault.
pub proof fn lemma_absent_cell_is_empty(row: Seq<Seq<char>>, col: int)
    requires
        col < 0 || col >= row.len(),
    ensures
        spec_cell(row, col) == Seq::<char>::empty(),
{
}

/// The column key string for column `col`: `col_` followed by the index.
pub open spec fn spec_column_key(col: int) -> Seq<char> {
    seq!['c', 'o', 'l', '_'] + dec_chars(col)
}

/// The synthetic value of the cell at row `row`, column `col`: `Data `
/// followed by the 1-based row and column numbers joined by `-`.  This stands
/// in for a real backing store; content is a pure function of coordinates.
pub open spec fn spec_cell_value(row: int, col: int) -> Seq<char> {
    seq!['D', 'a', 't', 'a', ' '] + dec_chars(row + 1) + seq!['-'] + dec_chars(col + 1)
}

/// One whole synthetic row: a value for every column of the grid.
pub open spec fn spec_row(cfg: TableConfig, row: int) -> Seq<Seq<char>> {
    Seq::new(cfg.columns as nat, |j: int| spec_cell_value(row, j))
}

/// The views of a sequence of rows.
pub open spec fn rows_view(rows: Seq<Row>) -> Seq<Seq<Seq<char>>> {
    rows.map_values(|r: Row| r@)
}

impl Row {
    /// A content-identical copy of this row.
    pub fn duplicate(&self) -> (r: Row)
        ensures
            r@ == self@,
    {
        let r = Row { cells: self.cells.clone() };
        proof {
            assert(r@ =~= self@);
        }
        r
    }

    /// Looks up the cell under key `col_{col}`; an absent key yields the
    /// empty string rather than a fault.
    pub fn cell_text(&self, col: u32) -> (r: String)
        ensures
            r@ == spec_cell(self@, col as int),
    {
        if (col as usize) < self.cells.len() {
            self.cells[col as usize].clone()
        } else {
            String::new()
        }
    }
}

/// The column key string for column `col`.
pub fn column_key(col: u32) -> (r: String)
    ensures
        r@ == spec_column_key(col as int),
{
    let mut s = String::from_str("col_");
    let d = dec_string(col as u64);
    s.append(d.as_str());
    proof {
        reveal_strlit("col_");
        assert(s@ =~= spec_column_key(col as int));
    }
    s
}

/// The synthetic value of the cell at `(row, col)`.
pub fn cell_value(row: u32, col: u32) -> (r: String)
    ensures
        r@ == spec_cell_value(row as int, col as int),
{
    let mut s = String::from_str("Data ");
    let rn = dec_string(row as u64 + 1);
    s.append(rn.as_str());
    s.append("-");
    let cn = dec_string(col as u64 + 1);
    s.append(cn.as_str());
    proof {
        reveal_strlit("Data ");
        reveal_strlit("-");
        assert(s@ =~= spec_cell_value(row as int, col as int));
    }
    s
}

/// Builds the synthetic row `row`: one value per column of the grid.
pub fn make_row(cfg: &TableConfig, row: u32) -> (r: Row)
    ensures
        r@ == spec_row(*cfg, row as int),
{
    let mut cells: Vec<String> = Vec::new();
    let mut j: u32 = 0;
    while j < cfg.columns
        invariant
            j <= cfg.columns,
            cells@.len() == j as int,
            forall|k: int| 0 <= k < j as int ==> cells@[k]@ == spec_cell_value(row as int, k),
        decreases cfg.columns - j,
    {
        cells.push(cell_value(row, j));
        j = j + 1;
    }
    let r = Row { cells };
    proof {
        assert(r@ =~= spec_row(*cfg, row as int));
    }
    r
}

/// The contents of segment `idx`: the run of `segment_size` consecutive
/// synthetic rows starting at `idx * segment_size`, truncated at the last
/// row of the grid.
pub open spec fn spec_segment(cfg: TableConfig, segment_size: int, idx: int) -> Seq<
    Seq<Seq<char>>,
> {
    let start = idx * segment_size;
    let end = if start + segment_size <= cfg.rows {
        start + segment_size
    } else {
        cfg.rows as int
    };
    if start >= end {
        Seq::empty()
    } else {
        Seq::new((end - start) as nat, |k: int| spec_row(cfg, start + k))
    }
}

/// Generates segment `idx` of the grid.
pub fn make_segment(cfg: &TableConfig, segment_size: u32, idx: u32) -> (seg: Vec<Row>)
    requires
        segment_size >= 1,
    ensures
        rows_view(seg@) == spec_segment(*cfg, segment_size as int, idx as int),
{
    proof {
        assert((idx as int) * (segment_size as int) <= 0xffff_ffff * 0xffff_ffff)
            by (nonlinear_arith)
            requires
                idx as int <= 0xffff_ffff,
                segment_size as int <= 0xffff_ffff,
                0 <= idx as int,
                0 <= segment_size as int,
        ;
    }
    let start: u64 = idx as u64 * segment_size as u64;
    let end: u64 = if start + segment_size as u64 <= cfg.rows as u64 {
        start + segment_size as u64
    } else {
        cfg.rows as u64
    };
    let mut seg: Vec<Row> = Vec::new();
    let mut i: u64 = start;
    while i < end
        invariant
            start == idx as u64 * segment_size as u64,
            end as int == (if start as int + segment_size as int <= cfg.rows as int {
                start as int + segment_size as int
            } else {
                cfg.rows as int
            }),
            end <= cfg.rows as u64,
            start <= i,
            i <= end || i == start,
            seg@.len() == i - start,
            forall|k: int| 0 <= k < seg@.len() ==> (#[trigger] seg@[k])@ == spec_row(
                *cfg,
                start as int + k,
            ),
        decreases end as int - i as int,
    {
        seg.push(make_row(cfg, i as u32));
        i = i + 1;
    }
    proof {
        assert(rows_view(seg@) =~= spec_segment(*cfg, segment_size as int, idx as int));
    }
    seg
}

/// A content-identical copy of a sequence of rows.
pub fn duplicate_rows(v: &Vec<Row>) -> (r: Vec<Row>)
    ensures
        rows_view(r@) == rows_view(v@),
        r@.len() == v@.len(),
{
    let mut r: Vec<Row> = Vec::new();
    let mut i: usize = 0;
    while i < v.len()
        invariant
            i <= v@.len(),
            r@.len() == i,
            forall|k: int| 0 <= k < i as int ==> (#[trigger] r@[k])@ == v@[k]@,
        decreases v@.len() - i,
    {
        r.push(v[i].duplicate());
        i = i + 1;
    }
    proof {
        assert(rows_view(r@) =~= rows_view(v@));
    }
    r
}

} // verus!

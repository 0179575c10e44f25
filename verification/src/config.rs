use vstd::prelude::*;

verus! {

/// Largest pixel extent (total width, total height) a grid may have.  Draw
/// commands carry `i64` pixel coordinates, and during rendering an extent is
/// offset by at most one further extent, so keeping every extent at or below
/// this bound keeps every coordinate representable.
pub const MAX_EXTENT: u64 = 0x1000_0000_0000_0000;

/// Immutable geometry of the grid: the logical size in cells, the pixel size
/// of one cell, of the header band, and of the visible viewport.  All pixel
/// dimensions are whole logical pixels.
pub struct TableConfig {
    pub columns: u32,
    pub rows: u32,
    pub cell_width: u32,
    pub cell_height: u32,
    pub header_height: u32,
    pub visible_width: u32,
    pub visible_height: u32,
}

impl TableConfig {
    /// Every pixel dimension is positive, and the total extents fit the
    /// coordinate arithmetic (a machine limit, not a policy choice).
    pub open spec fn wf(self) -> bool {
        &&& self.cell_width >= 1
        &&& self.cell_height >= 1
        &&& self.header_height >= 1
        &&& self.visible_width >= 1
        &&& self.visible_height >= 1
        &&& self.columns * self.cell_width <= MAX_EXTENT
        &&& self.rows * self.cell_height + self.header_height <= MAX_EXTENT
    }

    /// Total width of the grid in pixels.
    pub open spec fn spec_total_width(self) -> int {
        self.columns * self.cell_width
    }

    /// Total height of the grid in pixels: all rows plus the header band.
    pub open spec fn spec_total_height(self) -> int {
        self.rows * self.cell_height + self.header_height
    }

    pub fn new(
        columns: u32,
        rows: u32,
        cell_width: u32,
        cell_height: u32,
        header_height: u32,
        visible_width: u32,
        visible_height: u32,
    ) -> (c: TableConfig)
        requires
            cell_width >= 1,
            cell_height >= 1,
            header_height >= 1,
            visible_width >= 1,
            visible_height >= 1,
            columns * cell_width <= MAX_EXTENT,
            rows * cell_height + header_height <= MAX_EXTENT,
        ensures
            c == (TableConfig {
                columns,
                rows,
                cell_width,
                cell_height,
                header_height,
                visible_width,
                visible_height,
            }),
            c.wf(),
    {
        TableConfig {
            columns,
            rows,
            cell_width,
            cell_height,
            header_height,
            visible_width,
            visible_height,
        }
    }
}

} // verus!

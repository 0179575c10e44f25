use vstd::prelude::*;

pub mod cache;
pub mod config;
pub mod manager;
pub mod ops;
pub mod renderer;
pub mod rowdata;
pub mod text;
pub mod viewport;

verus! {

/// Number of rows grouped into one chunk when the total grid height is
/// accumulated chunk by chunk: a consumer that works in floating point sums
/// `full_chunks` equal chunk heights plus a remainder instead of forming one
/// huge product, which keeps each multiplicand in a precision-safe range.
pub const ROWS_PER_CHUNK: u32 = 10_000_000;

/// Splits a row count into full chunks of `ROWS_PER_CHUNK` rows and the
/// remaining rows, the decomposition the chunked total-height sum is built on.
pub fn height_chunks(rows: u32) -> (r: (u32, u32))
    ensures
        r.0 * ROWS_PER_CHUNK + r.1 == rows,
        r.1 < ROWS_PER_CHUNK,
{
    (rows / ROWS_PER_CHUNK, rows % ROWS_PER_CHUNK)
}

} // verus!

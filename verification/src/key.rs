//! Packing of a cell's two coordinates into the single integer under which
//! the grid stores it.

use crate::rule::{point, representable};
use vstd::prelude::*;

verus! {

/// The key of a representable cell: both coordinates shifted to be
/// non-negative, the first in the high half and the second in the low half.
pub(crate) closed spec fn key_of(c: (int, int)) -> u64 {
    ((c.0 + 0x8000_0000) * 0x1_0000_0000 + (c.1 + 0x8000_0000)) as u64
}

/// The cell that a key stands for.
pub(crate) closed spec fn cell_of(k: u64) -> (int, int) {
    (k / 0x1_0000_0000 - 0x8000_0000, k % 0x1_0000_0000 - 0x8000_0000)
}

/// A representable cell is the cell that its key stands for, so two such
/// cells with one key are the same cell.
pub(crate) proof fn lemma_key_roundtrip(c: (int, int))
    requires
        representable(c),
    ensures
        cell_of(key_of(c)) == c,
{
}

/// Every key stands for a representable cell, and is that cell's key.
pub(crate) proof fn lemma_cell_roundtrip(k: u64)
    ensures
        representable(cell_of(k)),
        key_of(cell_of(k)) == k,
{
}

/// The key of `cell`.
pub(crate) fn encode(cell: (i32, i32)) -> (k: u64)
    ensures
        k == key_of(point(cell)),
{
    let hi: u64 = (cell.0 as i64 + 0x8000_0000) as u64;
    let lo: u64 = (cell.1 as i64 + 0x8000_0000) as u64;
    hi * 0x1_0000_0000 + lo
}

/// The cell that `k` stands for.
pub(crate) fn decode(k: u64) -> (cell: (i32, i32))
    ensures
        point(cell) == cell_of(k),
{
    let x: i64 = (k / 0x1_0000_0000) as i64 - 0x8000_0000;
    let y: i64 = (k % 0x1_0000_0000) as i64 - 0x8000_0000;
    (x as i32, y as i32)
}

} // verus!

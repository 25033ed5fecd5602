//! The finalized output table.

use vstd::prelude::*;

use crate::model::PosCounts;

verus! {

/// One output row: a 0-based position and the five raw counters observed
/// there, in the fixed class order A, C, G, T, N.
#[derive(Clone, Copy, PartialEq, Eq, Structural, Debug)]
pub struct PositionRow {
    pub position: u64,
    pub a_count: u64,
    pub c_count: u64,
    pub g_count: u64,
    pub t_count: u64,
    pub n_count: u64,
}

/// Whether a row reports exactly the counter record `pc` at position `p`.
pub open spec fn row_reports(row: PositionRow, p: int, pc: PosCounts) -> bool {
    &&& row.position == p
    &&& row.a_count == pc.a
    &&& row.c_count == pc.c
    &&& row.g_count == pc.g
    &&& row.t_count == pc.t
    &&& row.n_count == pc.n
}

/// The immutable result table of a completed aggregation: one row per
/// position in `0 .. max_position_seen`, dense and in position order.
#[derive(Clone, PartialEq, Eq, Debug)]
pub struct FinalResult {
    pub rows: Vec<PositionRow>,
}

} // verus!

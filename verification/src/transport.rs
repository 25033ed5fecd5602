//! The value representation in which partial counts cross an execution
//! boundary between workers.

use vstd::prelude::*;

use crate::model::PosCounts;

verus! {

/// A self-contained snapshot of a counting state at a point in time: the
/// five counter sequences plus the tracked length. It owns its own copies
/// of all data, so it can be carried across a process or worker boundary
/// and later reconstituted into an equivalent state.
pub struct SerializedState {
    pub a_counts: Vec<u64>,
    pub c_counts: Vec<u64>,
    pub g_counts: Vec<u64>,
    pub t_counts: Vec<u64>,
    pub n_counts: Vec<u64>,
    pub max_position_seen: u64,
}

impl SerializedState {
    /// A snapshot fits together when its five counter sequences all have
    /// exactly the recorded length. Deserialization accepts precisely the
    /// snapshots with this shape; a corrupted one is rejected rather than
    /// silently merged into wrong numbers.
    pub open spec fn consistent(&self) -> bool {
        &&& self.a_counts@.len() == self.max_position_seen
        &&& self.c_counts@.len() == self.max_position_seen
        &&& self.g_counts@.len() == self.max_position_seen
        &&& self.t_counts@.len() == self.max_position_seen
        &&& self.n_counts@.len() == self.max_position_seen
    }
}

impl View for SerializedState {
    type V = Seq<PosCounts>;

    /// The counting state the snapshot stands for.
    open spec fn view(&self) -> Seq<PosCounts> {
        Seq::new(
            self.max_position_seen as nat,
            |i: int|
                PosCounts {
                    a: self.a_counts@[i] as nat,
                    c: self.c_counts@[i] as nat,
                    g: self.g_counts@[i] as nat,
                    t: self.t_counts@[i] as nat,
                    n: self.n_counts@[i] as nat,
                },
        )
    }
}

/// Why a snapshot was rejected during deserialization.
#[derive(Clone, Copy, PartialEq, Eq, Structural, Debug)]
pub enum StateError {
    /// The snapshot's counter sequences do not all have the recorded
    /// length: it was produced by an incompatible peer or corrupted in
    /// transit.
    SchemaMismatch,
}

} // verus!

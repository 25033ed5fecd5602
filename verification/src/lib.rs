//! Positional base-composition aggregation for biological sequence reads.
//!
//! The crate maintains, per 0-based position across a collection of reads,
//! how many reads carry each of the five symbol classes A, C, G, T and N
//! (case-insensitive) at that position. The counting state can be built
//! independently over partitions of the input, merged pairwise in any order
//! and grouping, carried across an execution boundary as a serialized
//! snapshot, and finalized into a position-indexed table of raw counts.

pub mod accumulator;
pub mod classify;
pub mod laws;
pub mod model;
pub mod table;
pub mod transport;

pub use accumulator::BaseSequenceContent;
pub use accumulator::UpdateError;
pub use accumulator::batch_is_clean;
pub use accumulator::span_of_batch;
pub use classify::Base;
pub use classify::ClassifyPolicy;
pub use classify::classify;
pub use table::FinalResult;
pub use table::PositionRow;
pub use transport::SerializedState;
pub use transport::StateError;

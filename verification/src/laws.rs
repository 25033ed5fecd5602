//! The algebra of the aggregator: the laws that make the aggregation
//! decomposable, so that partial states computed over arbitrary partitions
//! of the input, merged in any order and grouping, give the same final
//! counts as a single pass.

use vstd::prelude::*;

use crate::model::PosCounts;
use crate::model::lemma_batch_count_concat;
use crate::model::lemma_batch_span_concat;
use crate::model::lemma_counts_at_merged;
use crate::model::lemma_counts_at_updated;
use crate::model::merged;
use crate::model::updated;
use crate::classify::Base;

verus! {

/// Merge is commutative: combining two partial states gives the same state
/// in either order.
pub proof fn lemma_merge_commutative(s1: Seq<PosCounts>, s2: Seq<PosCounts>)
    ensures
        merged(s1, s2) == merged(s2, s1),
{
    assert(merged(s1, s2) =~= merged(s2, s1));
}

/// Merge is associative: a chain or tree of merges may be grouped in any
/// way without changing the resulting state.
pub proof fn lemma_merge_associative(s1: Seq<PosCounts>, s2: Seq<PosCounts>, s3: Seq<PosCounts>)
    ensures
        merged(merged(s1, s2), s3) == merged(s1, merged(s2, s3)),
{
    assert forall|p: int|
        0 <= p < merged(merged(s1, s2), s3).len() implies merged(merged(s1, s2), s3)[p] == merged(
        s1,
        merged(s2, s3),
    )[p] by {
        lemma_counts_at_merged(s1, s2, p);
        lemma_counts_at_merged(s2, s3, p);
    }
    assert(merged(merged(s1, s2), s3) =~= merged(s1, merged(s2, s3)));
}

/// Merging with a freshly created, empty state is an identity operation,
/// on either side.
pub proof fn lemma_merge_empty_identity(s: Seq<PosCounts>)
    ensures
        merged(s, Seq::<PosCounts>::empty()) == s,
        merged(Seq::<PosCounts>::empty(), s) == s,
{
    assert(merged(s, Seq::<PosCounts>::empty()) =~= s);
    assert(merged(Seq::<PosCounts>::empty(), s) =~= s);
}

/// Update order independence: feeding one batch and then another is the
/// same as feeding their concatenation in a single call. Splitting the
/// same reads over any number of update calls therefore yields identical
/// final counts.
pub proof fn lemma_update_split(
    s: Seq<PosCounts>,
    b1: Seq<Option<Seq<char>>>,
    b2: Seq<Option<Seq<char>>>,
)
    ensures
        updated(updated(s, b1), b2) == updated(s, b1 + b2),
{
    lemma_batch_span_concat(b1, b2);
    assert forall|p: int|
        0 <= p < updated(updated(s, b1), b2).len() implies updated(updated(s, b1), b2)[p]
        == updated(s, b1 + b2)[p] by {
        lemma_counts_at_updated(s, b1, p);
        lemma_batch_count_concat(b1, b2, Base::A, p);
        lemma_batch_count_concat(b1, b2, Base::C, p);
        lemma_batch_count_concat(b1, b2, Base::G, p);
        lemma_batch_count_concat(b1, b2, Base::T, p);
        lemma_batch_count_concat(b1, b2, Base::N, p);
    }
    assert(updated(updated(s, b1), b2) =~= updated(s, b1 + b2));
}

/// Decomposability: building two states from two partitions of the reads
/// and merging them gives exactly the state of a single pass over all the
/// reads. With commutativity and associativity of merge, every order and
/// grouping of merges over any partitioning agrees with the single-pass
/// state, and so yields the same final table.
pub proof fn lemma_partition_merge(b1: Seq<Option<Seq<char>>>, b2: Seq<Option<Seq<char>>>)
    ensures
        merged(
            updated(Seq::<PosCounts>::empty(), b1),
            updated(Seq::<PosCounts>::empty(), b2),
        ) == updated(Seq::<PosCounts>::empty(), b1 + b2),
{
    let e = Seq::<PosCounts>::empty();
    lemma_batch_span_concat(b1, b2);
    assert forall|p: int|
        0 <= p < merged(updated(e, b1), updated(e, b2)).len() implies merged(
        updated(e, b1),
        updated(e, b2),
    )[p] == updated(e, b1 + b2)[p] by {
        lemma_counts_at_updated(e, b1, p);
        lemma_counts_at_updated(e, b2, p);
        lemma_batch_count_concat(b1, b2, Base::A, p);
        lemma_batch_count_concat(b1, b2, Base::C, p);
        lemma_batch_count_concat(b1, b2, Base::G, p);
        lemma_batch_count_concat(b1, b2, Base::T, p);
        lemma_batch_count_concat(b1, b2, Base::N, p);
    }
    assert(merged(updated(e, b1), updated(e, b2)) =~= updated(e, b1 + b2));
}

/// Transport safety: a state reconstructed from a snapshot has the very
/// same abstract counts as the snapshot's source, so merging with the
/// reconstruction equals merging with its source state. Together with the
/// round-trip guarantees of `serialize` and `deserialize`, partial
/// aggregates may safely cross a worker boundary.
pub proof fn lemma_merge_round_trip(x: Seq<PosCounts>, y: Seq<PosCounts>, d: Seq<PosCounts>)
    requires
        d == y,
    ensures
        merged(x, d) == merged(x, y),
{
}

} // verus!

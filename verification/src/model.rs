//! The mathematical model of the aggregator.
//!
//! A counting state is modelled as a `Seq<PosCounts>`: one record of five
//! counters per tracked position. A batch of reads is modelled as a
//! `Seq<Option<Seq<char>>>`: one optional character sequence per entry,
//! `None` standing for a missing read. The spec functions here say what a
//! state looks like after ingesting a batch (`updated`) and after combining
//! two states (`merged`); the lemmas establish the pointwise laws that the
//! executable code and the public algebraic laws are proved from.

use vstd::prelude::*;

use crate::classify::Base;
use crate::classify::classify_spec;

verus! {

/// The five counters recorded for one position, one per symbol class.
#[verifier::ext_equal]
pub struct PosCounts {
    pub a: nat,
    pub c: nat,
    pub g: nat,
    pub t: nat,
    pub n: nat,
}

/// A position that was never touched holds five zero counters.
pub open spec fn zero_counts() -> PosCounts {
    PosCounts { a: 0, c: 0, g: 0, t: 0, n: 0 }
}

/// The counter of one symbol class within a record.
pub open spec fn class_count(pc: PosCounts, b: Base) -> nat {
    match b {
        Base::A => pc.a,
        Base::C => pc.c,
        Base::G => pc.g,
        Base::T => pc.t,
        Base::N => pc.n,
    }
}

/// Pointwise sum of two counter records.
pub open spec fn add_counts(x: PosCounts, y: PosCounts) -> PosCounts {
    PosCounts { a: x.a + y.a, c: x.c + y.c, g: x.g + y.g, t: x.t + y.t, n: x.n + y.n }
}

/// A record with a single one in class `b`.
pub open spec fn one_count(b: Base) -> PosCounts {
    match b {
        Base::A => PosCounts { a: 1, c: 0, g: 0, t: 0, n: 0 },
        Base::C => PosCounts { a: 0, c: 1, g: 0, t: 0, n: 0 },
        Base::G => PosCounts { a: 0, c: 0, g: 1, t: 0, n: 0 },
        Base::T => PosCounts { a: 0, c: 0, g: 0, t: 1, n: 0 },
        Base::N => PosCounts { a: 0, c: 0, g: 0, t: 0, n: 1 },
    }
}

/// The record at position `i` of a state, zero beyond the tracked length.
pub open spec fn counts_at(s: Seq<PosCounts>, i: int) -> PosCounts {
    if 0 <= i < s.len() {
        s[i]
    } else {
        zero_counts()
    }
}

/// The larger of two lengths.
pub open spec fn max_nat(x: nat, y: nat) -> nat {
    if x >= y {
        x
    } else {
        y
    }
}

/// Two states combined: the longer length, and the pointwise sum of the
/// records, the shorter state padded with zeros.
pub open spec fn merged(s1: Seq<PosCounts>, s2: Seq<PosCounts>) -> Seq<PosCounts> {
    Seq::new(max_nat(s1.len(), s2.len()), |i: int| add_counts(counts_at(s1, i), counts_at(s2, i)))
}

/// 1 if the read's character at position `p` falls in class `b`, else 0.
pub open spec fn read_count(read: Seq<char>, b: Base, p: int) -> nat {
    if 0 <= p < read.len() && classify_spec(read[p]) == Some(b) {
        1nat
    } else {
        0nat
    }
}

/// How many positions a read reaches into the state: one past its last
/// classifiable character, 0 if it has none.
pub open spec fn read_span(read: Seq<char>) -> nat
    decreases read.len(),
{
    if read.len() == 0 {
        0
    } else if classify_spec(read.last()) is Some {
        read.len()
    } else {
        read_span(read.drop_last())
    }
}

/// The read's contributions to position `p`, one counter per class.
pub open spec fn read_counts_at(read: Seq<char>, p: int) -> PosCounts {
    PosCounts {
        a: read_count(read, Base::A, p),
        c: read_count(read, Base::C, p),
        g: read_count(read, Base::G, p),
        t: read_count(read, Base::T, p),
        n: read_count(read, Base::N, p),
    }
}

/// Number of class-`b` characters at position `p` over all present reads
/// of a batch.
pub open spec fn batch_count(batch: Seq<Option<Seq<char>>>, b: Base, p: int) -> nat
    decreases batch.len(),
{
    if batch.len() == 0 {
        0
    } else {
        batch_count(batch.drop_last(), b, p) + match batch.last() {
            Some(read) => read_count(read, b, p),
            None => 0,
        }
    }
}

/// How many positions a batch reaches: the largest span of its present
/// reads, 0 for an empty or all-missing batch.
pub open spec fn batch_span(batch: Seq<Option<Seq<char>>>) -> nat
    decreases batch.len(),
{
    if batch.len() == 0 {
        0
    } else {
        max_nat(
            batch_span(batch.drop_last()),
            match batch.last() {
                Some(read) => read_span(read),
                None => 0,
            },
        )
    }
}

/// The batch's contributions to position `p`, one counter per class.
pub open spec fn batch_counts_at(batch: Seq<Option<Seq<char>>>, p: int) -> PosCounts {
    PosCounts {
        a: batch_count(batch, Base::A, p),
        c: batch_count(batch, Base::C, p),
        g: batch_count(batch, Base::G, p),
        t: batch_count(batch, Base::T, p),
        n: batch_count(batch, Base::N, p),
    }
}

/// One read folded into a state: the state grows to the read's span if that
/// is longer, and each position receives the read's contributions.
pub open spec fn read_folded(s: Seq<PosCounts>, read: Seq<char>) -> Seq<PosCounts> {
    Seq::new(
        max_nat(s.len(), read_span(read)),
        |i: int| add_counts(counts_at(s, i), read_counts_at(read, i)),
    )
}

/// One batch folded into a state: the state grows to the batch's span if
/// that is longer, and each position receives the batch's contributions.
pub open spec fn updated(s: Seq<PosCounts>, batch: Seq<Option<Seq<char>>>) -> Seq<PosCounts> {
    Seq::new(
        max_nat(s.len(), batch_span(batch)),
        |i: int| add_counts(counts_at(s, i), batch_counts_at(batch, i)),
    )
}

/// Every character of the read falls in one of the five classes.
pub open spec fn read_clean(read: Seq<char>) -> bool {
    forall|p: int| 0 <= p < read.len() ==> (#[trigger] classify_spec(read[p])) is Some
}

/// Every character of every present read of the batch falls in one of the
/// five classes. Strict validation accepts exactly the clean batches.
pub open spec fn batch_clean(batch: Seq<Option<Seq<char>>>) -> bool {
    forall|i: int|
        0 <= i < batch.len() ==> match #[trigger] batch[i] {
            Some(read) => read_clean(read),
            None => true,
        }
}

/// No counter would run past `u64::MAX` when the batch is folded into `s`.
pub open spec fn fits_update(s: Seq<PosCounts>, batch: Seq<Option<Seq<char>>>) -> bool {
    forall|b: Base, p: int|
        class_count(counts_at(s, p), b) + #[trigger] batch_count(batch, b, p) <= u64::MAX
}

/// No counter would run past `u64::MAX` when `s2` is merged into `s1`.
pub open spec fn fits_merge(s1: Seq<PosCounts>, s2: Seq<PosCounts>) -> bool {
    forall|b: Base, p: int|
        #[trigger] class_count(counts_at(s1, p), b) + class_count(counts_at(s2, p), b)
            <= u64::MAX
}

/// A read's span never exceeds its length.
pub proof fn lemma_read_span_le_len(read: Seq<char>)
    ensures
        read_span(read) <= read.len(),
    decreases read.len(),
{
    if read.len() > 0 && !(classify_spec(read.last()) is Some) {
        lemma_read_span_le_len(read.drop_last());
    }
}

/// A classifiable character at position `p` lies within the read's span.
pub proof fn lemma_read_span_covers(read: Seq<char>, p: int)
    requires
        0 <= p < read.len(),
        classify_spec(read[p]) is Some,
    ensures
        read_span(read) >= p + 1,
    decreases read.len(),
{
    if !(classify_spec(read.last()) is Some) {
        lemma_read_span_covers(read.drop_last(), p);
    }
}

/// Beyond its span a read contributes nothing.
pub proof fn lemma_read_count_zero_beyond(read: Seq<char>, b: Base, p: int)
    requires
        p >= read_span(read),
    ensures
        read_count(read, b, p) == 0,
{
    if 0 <= p < read.len() && classify_spec(read[p]) == Some(b) {
        lemma_read_span_covers(read, p);
    }
}

/// Outside the positions its span reaches a batch contributes nothing.
pub proof fn lemma_batch_count_zero_beyond(batch: Seq<Option<Seq<char>>>, b: Base, p: int)
    requires
        p < 0 || p >= batch_span(batch),
    ensures
        batch_count(batch, b, p) == 0,
    decreases batch.len(),
{
    if batch.len() > 0 {
        lemma_batch_count_zero_beyond(batch.drop_last(), b, p);
        match batch.last() {
            Some(read) => {
                if p >= 0 {
                    lemma_read_count_zero_beyond(read, b, p);
                }
            },
            None => (),
        }
    }
}

/// The record of a merged state at any position is the pointwise sum of the
/// two states' records there, also beyond the tracked lengths.
pub proof fn lemma_counts_at_merged(s1: Seq<PosCounts>, s2: Seq<PosCounts>, p: int)
    ensures
        counts_at(merged(s1, s2), p) == add_counts(counts_at(s1, p), counts_at(s2, p)),
{
}

/// The record of an updated state at any position is the prior record plus
/// the batch's contributions there, also beyond the tracked lengths.
pub proof fn lemma_counts_at_updated(s: Seq<PosCounts>, batch: Seq<Option<Seq<char>>>, p: int)
    ensures
        counts_at(updated(s, batch), p) == add_counts(counts_at(s, p), batch_counts_at(batch, p)),
{
    if !(0 <= p < updated(s, batch).len()) {
        lemma_batch_count_zero_beyond(batch, Base::A, p);
        lemma_batch_count_zero_beyond(batch, Base::C, p);
        lemma_batch_count_zero_beyond(batch, Base::G, p);
        lemma_batch_count_zero_beyond(batch, Base::T, p);
        lemma_batch_count_zero_beyond(batch, Base::N, p);
        assert(add_counts(counts_at(s, p), batch_counts_at(batch, p)) =~= zero_counts());
    }
}

/// The record of a read-folded state at any position is the prior record
/// plus the read's contributions there, also beyond the tracked lengths.
pub proof fn lemma_counts_at_read_folded(s: Seq<PosCounts>, read: Seq<char>, p: int)
    ensures
        counts_at(read_folded(s, read), p) == add_counts(counts_at(s, p), read_counts_at(read, p)),
{
    if !(0 <= p < read_folded(s, read).len()) {
        if p >= read_span(read) {
            lemma_read_count_zero_beyond(read, Base::A, p);
            lemma_read_count_zero_beyond(read, Base::C, p);
            lemma_read_count_zero_beyond(read, Base::G, p);
            lemma_read_count_zero_beyond(read, Base::T, p);
            lemma_read_count_zero_beyond(read, Base::N, p);
        }
        assert(add_counts(counts_at(s, p), read_counts_at(read, p)) =~= zero_counts());
    }
}

/// Appending a missing read to a batch changes neither its contributions
/// nor its span, so the updated state is unchanged too.
pub proof fn lemma_updated_push_none(s: Seq<PosCounts>, pre: Seq<Option<Seq<char>>>)
    ensures
        updated(s, pre.push(None)) == updated(s, pre),
{
    assert(pre.push(None).drop_last() =~= pre);
    assert(forall|b: Base, p: int|
        #[trigger] batch_count(pre.push(None), b, p) == batch_count(pre, b, p));
    assert(updated(s, pre.push(None)) =~= updated(s, pre));
}

/// Appending a present read to a batch and updating is the same as updating
/// with the shorter batch and then folding the read in.
pub proof fn lemma_updated_push_read(s: Seq<PosCounts>, pre: Seq<Option<Seq<char>>>, read: Seq<char>)
    ensures
        updated(s, pre.push(Some(read))) == read_folded(updated(s, pre), read),
{
    let full = pre.push(Some(read));
    assert(full.drop_last() =~= pre);
    assert(forall|b: Base, p: int|
        #[trigger] batch_count(full, b, p) == batch_count(pre, b, p) + read_count(read, b, p));
    assert(batch_span(full) == max_nat(batch_span(pre), read_span(read)));
    assert forall|p: int| 0 <= p < updated(s, full).len() implies
        updated(s, full)[p] == read_folded(updated(s, pre), read)[p] by {
        lemma_counts_at_updated(s, pre, p);
        assert(updated(s, full)[p] =~= read_folded(updated(s, pre), read)[p]);
    }
    assert(updated(s, full) =~= read_folded(updated(s, pre), read));
}

/// A batch's span over a concatenation is the larger of the two spans.
pub proof fn lemma_batch_span_concat(b1: Seq<Option<Seq<char>>>, b2: Seq<Option<Seq<char>>>)
    ensures
        batch_span(b1 + b2) == max_nat(batch_span(b1), batch_span(b2)),
    decreases b2.len(),
{
    if b2.len() == 0 {
        assert(b1 + b2 =~= b1);
    } else {
        lemma_batch_span_concat(b1, b2.drop_last());
        assert((b1 + b2).drop_last() =~= b1 + b2.drop_last());
        assert((b1 + b2).last() == b2.last());
    }
}

/// A batch's contributions over a concatenation are the sums of the parts'.
pub proof fn lemma_batch_count_concat(
    b1: Seq<Option<Seq<char>>>,
    b2: Seq<Option<Seq<char>>>,
    b: Base,
    p: int,
)
    ensures
        batch_count(b1 + b2, b, p) == batch_count(b1, b, p) + batch_count(b2, b, p),
    decreases b2.len(),
{
    if b2.len() == 0 {
        assert(b1 + b2 =~= b1);
    } else {
        lemma_batch_count_concat(b1, b2.drop_last(), b, p);
        assert((b1 + b2).drop_last() =~= b1 + b2.drop_last());
        assert((b1 + b2).last() == b2.last());
    }
}

} // verus!

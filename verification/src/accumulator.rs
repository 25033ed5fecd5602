//! The growable positional counter store: the mutable counting state owned
//! by one worker during its ingestion and merge phase.

use vstd::prelude::*;

use crate::classify::Base;
use crate::classify::ClassifyPolicy;
use crate::classify::classify;
use crate::classify::classify_spec;
use crate::model::PosCounts;
use crate::model::add_counts;
use crate::model::batch_clean;
use crate::model::class_count;
use crate::model::counts_at;
use crate::model::fits_merge;
use crate::model::fits_update;
use crate::model::lemma_batch_count_concat;
use crate::model::lemma_counts_at_read_folded;
use crate::model::lemma_counts_at_updated;
use crate::model::lemma_read_span_le_len;
use crate::model::lemma_updated_push_none;
use crate::model::lemma_updated_push_read;
use crate::model::max_nat;
use crate::model::merged;
use crate::model::batch_count;
use crate::model::batch_span;
use crate::model::one_count;
use crate::model::read_clean;
use crate::model::read_count;
use crate::model::read_counts_at;
use crate::model::read_span;
use crate::model::read_folded;
use crate::model::updated;
use crate::model::zero_counts;
use crate::table::FinalResult;
use crate::table::PositionRow;
use crate::table::row_reports;
use crate::transport::SerializedState;
use crate::transport::StateError;

verus! {

/// Per-position counts of the five symbol classes over all reads ingested
/// or merged so far. Five equal-length counter sequences, one per class,
/// indexed by position; their shared length is `max_position_seen` and only
/// ever grows.
pub struct BaseSequenceContent {
    a_counts: Vec<u64>,
    c_counts: Vec<u64>,
    g_counts: Vec<u64>,
    t_counts: Vec<u64>,
    n_counts: Vec<u64>,
    max_position_seen: usize,
}

impl View for BaseSequenceContent {
    type V = Seq<PosCounts>;

    /// The abstract state: the record of five counters at each tracked
    /// position.
    closed spec fn view(&self) -> Seq<PosCounts> {
        Seq::new(
            self.max_position_seen as nat,
            |i: int|
                PosCounts {
                    a: self.a_counts@[i] as nat,
                    c: self.c_counts@[i] as nat,
                    g: self.g_counts@[i] as nat,
                    t: self.t_counts@[i] as nat,
                    n: self.n_counts@[i] as nat,
                },
        )
    }
}

impl BaseSequenceContent {
    /// All five counter sequences have exactly the tracked length.
    pub closed spec fn well_formed(&self) -> bool {
        &&& self.a_counts@.len() == self.max_position_seen
        &&& self.c_counts@.len() == self.max_position_seen
        &&& self.g_counts@.len() == self.max_position_seen
        &&& self.t_counts@.len() == self.max_position_seen
        &&& self.n_counts@.len() == self.max_position_seen
    }

    /// A fresh, empty state: no position tracked yet.
    pub fn new() -> (r: Self)
        ensures
            r.well_formed(),
            r@ == Seq::<PosCounts>::empty(),
    {
        let r = BaseSequenceContent {
            a_counts: Vec::new(),
            c_counts: Vec::new(),
            g_counts: Vec::new(),
            t_counts: Vec::new(),
            n_counts: Vec::new(),
            max_position_seen: 0,
        };
        proof {
            assert(r@ =~= Seq::<PosCounts>::empty());
        }
        r
    }

    /// The tracked length: one past the highest position ever counted.
    pub fn len(&self) -> (n: usize)
        ensures
            n as nat == self@.len(),
    {
        self.max_position_seen
    }

    /// The counter of class `b` at `position`.
    pub fn count(&self, b: Base, position: usize) -> (r: u64)
        requires
            self.well_formed(),
            position < self@.len(),
        ensures
            r as nat == class_count(self@[position as int], b),
    {
        match b {
            Base::A => self.a_counts[position],
            Base::C => self.c_counts[position],
            Base::G => self.g_counts[position],
            Base::T => self.t_counts[position],
            Base::N => self.n_counts[position],
        }
    }

    /// Grow the tracked length to `desired_len` if it is larger, filling
    /// every new position with zero counters; otherwise do nothing. Never
    /// truncates, and every previously accumulated counter keeps its exact
    /// prior value.
    pub fn ensure_capacity(&mut self, desired_len: usize)
        requires
            old(self).well_formed(),
        ensures
            final(self).well_formed(),
            final(self)@.len() == max_nat(old(self)@.len(), desired_len as nat),
            forall|i: int| 0 <= i < old(self)@.len() ==> final(self)@[i] == old(self)@[i],
            forall|i: int|
                old(self)@.len() <= i < final(self)@.len() ==> final(self)@[i] == zero_counts(),
    {
        if desired_len > self.max_position_seen {
            self.a_counts.resize(desired_len, 0);
            self.c_counts.resize(desired_len, 0);
            self.g_counts.resize(desired_len, 0);
            self.t_counts.resize(desired_len, 0);
            self.n_counts.resize(desired_len, 0);
            proof {
                assert(forall|i: int|
                    0 <= i < old(self).max_position_seen ==> self.a_counts@[i] == old(
                        self,
                    ).a_counts@.subrange(0, old(self).max_position_seen as int)[i]);
            }
            self.max_position_seen = desired_len;
        }
    }

    /// Add 1 to the class-`b` counter at `position`, which must already be
    /// tracked; every other counter is untouched.
    pub fn increment(&mut self, b: Base, position: usize)
        requires
            old(self).well_formed(),
            position < old(self)@.len(),
            class_count(old(self)@[position as int], b) < u64::MAX,
        ensures
            final(self).well_formed(),
            final(self)@ == old(self)@.update(
                position as int,
                add_counts(old(self)@[position as int], one_count(b)),
            ),
    {
        match b {
            Base::A => {
                let v: u64 = self.a_counts[position];
                self.a_counts[position] = v + 1;
            },
            Base::C => {
                let v: u64 = self.c_counts[position];
                self.c_counts[position] = v + 1;
            },
            Base::G => {
                let v: u64 = self.g_counts[position];
                self.g_counts[position] = v + 1;
            },
            Base::T => {
                let v: u64 = self.t_counts[position];
                self.t_counts[position] = v + 1;
            },
            Base::N => {
                let v: u64 = self.n_counts[position];
                self.n_counts[position] = v + 1;
            },
        }
        proof {
            assert(self@ =~= old(self)@.update(
                position as int,
                add_counts(old(self)@[position as int], one_count(b)),
            ));
        }
    }

    /// Fold one batch of optional reads into the state. Missing entries are
    /// skipped. Of a present read, each character is classified
    /// case-insensitively; a classifiable character at position `p` grows
    /// the state to cover `p` and adds 1 to its class's counter there, and
    /// an unclassifiable one is skipped without touching anything.
    pub fn update_batch(&mut self, batch: &Vec<Option<String>>)
        requires
            old(self).well_formed(),
            fits_update(old(self)@, batch.deep_view()),
        ensures
            final(self).well_formed(),
            final(self)@ == updated(old(self)@, batch.deep_view()),
    {
        let ghost bv = batch.deep_view();
        let ghost s_init = self@;
        proof {
            assert(bv.take(0) =~= Seq::<Option<Seq<char>>>::empty());
            assert(updated(s_init, bv.take(0)) =~= s_init);
        }
        let n: usize = batch.len();
        let mut i: usize = 0;
        while i < n
            invariant
                self.well_formed(),
                i <= n,
                n == batch@.len(),
                bv == batch.deep_view(),
                fits_update(s_init, bv),
                self@ == updated(s_init, bv.take(i as int)),
            decreases n - i,
        {
            match &batch[i] {
                None => {
                    proof {
                        assert(bv[i as int] is None);
                        assert(bv.take(i as int + 1) =~= bv.take(i as int).push(None));
                        lemma_updated_push_none(s_init, bv.take(i as int));
                    }
                },
                Some(s) => {
                    let ghost s0 = self@;
                    let ghost r = s@;
                    proof {
                        assert(bv[i as int] == Some(r));
                        assert(r.take(0) =~= Seq::<char>::empty());
                        assert(read_folded(s0, r.take(0)) =~= s0);
                    }
                    let m: usize = s.as_str().unicode_len();
                    let mut p: usize = 0;
                    while p < m
                        invariant
                            self.well_formed(),
                            p <= m,
                            m as nat == r.len(),
                            r == s@,
                            i < bv.len(),
                            bv[i as int] == Some(r),
                            fits_update(s_init, bv),
                            s0 == updated(s_init, bv.take(i as int)),
                            self@ == read_folded(s0, r.take(p as int)),
                        decreases m - p,
                    {
                        let c = s.as_str().get_char(p);
                        let ghost v0 = self@;
                        match classify(c) {
                            Some(b) => {
                                proof {
                                    lemma_update_step_fits(s_init, bv, i as int, r, p as int, b);
                                    lemma_counts_at_read_folded(
                                        s0,
                                        r.take(p as int),
                                        p as int,
                                    );
                                    lemma_counts_at_updated(
                                        s_init,
                                        bv.take(i as int),
                                        p as int,
                                    );
                                }
                                self.ensure_capacity(p + 1);
                                proof {
                                    assert(counts_at(v0, p as int) == add_counts(
                                        counts_at(s0, p as int),
                                        read_counts_at(r.take(p as int), p as int),
                                    ));
                                    assert(read_counts_at(r.take(p as int), p as int)
                                        =~= zero_counts());
                                    assert(self@[p as int] =~= counts_at(v0, p as int));
                                    assert(class_count(self@[p as int], b) == class_count(
                                        counts_at(s_init, p as int),
                                        b,
                                    ) + batch_count(bv.take(i as int), b, p as int));
                                    assert(class_count(self@[p as int], b) < u64::MAX);
                                }
                                let ghost v1 = self@;
                                self.increment(b, p);
                                proof {
                                    lemma_read_span_le_len(r.take(p as int));
                                    assert(r.take(p as int + 1).drop_last() =~= r.take(p as int));
                                    assert(r.take(p as int + 1).last() == r[p as int]);
                                    assert(read_span(r.take(p as int + 1)) == p + 1);
                                    assert forall|j: int|
                                        0 <= j < self@.len() implies self@[j] == read_folded(
                                        s0,
                                        r.take(p as int + 1),
                                    )[j] by {
                                        lemma_counts_at_read_folded(
                                            s0,
                                            r.take(p as int),
                                            j,
                                        );
                                        if j == p as int {
                                            assert(read_counts_at(r.take(p as int + 1), j)
                                                =~= one_count(b));
                                            assert(self@[j] =~= read_folded(
                                                s0,
                                                r.take(p as int + 1),
                                            )[j]);
                                        } else {
                                            assert(read_counts_at(r.take(p as int + 1), j)
                                                =~= read_counts_at(r.take(p as int), j));
                                            assert(self@[j] == v1[j]);
                                            assert(v1[j] =~= counts_at(v0, j));
                                            assert(self@[j] =~= read_folded(
                                                s0,
                                                r.take(p as int + 1),
                                            )[j]);
                                        }
                                    }
                                    assert(self@ =~= read_folded(s0, r.take(p as int + 1)));
                                }
                            },
                            None => {
                                proof {
                                    assert(r.take(p as int + 1).drop_last() =~= r.take(p as int));
                                    assert(r.take(p as int + 1).last() == r[p as int]);
                                    assert(read_span(r.take(p as int + 1)) == read_span(
                                        r.take(p as int),
                                    ));
                                    assert forall|j: int|
                                        0 <= j < self@.len() implies self@[j] == read_folded(
                                        s0,
                                        r.take(p as int + 1),
                                    )[j] by {
                                        assert(read_counts_at(r.take(p as int + 1), j)
                                            =~= read_counts_at(r.take(p as int), j));
                                    }
                                    assert(self@ =~= read_folded(s0, r.take(p as int + 1)));
                                }
                            },
                        }
                        p = p + 1;
                    }
                    proof {
                        assert(r.take(m as int) =~= r);
                        lemma_updated_push_read(s_init, bv.take(i as int), r);
                        assert(bv.take(i as int + 1) =~= bv.take(i as int).push(Some(r)));
                    }
                },
            }
            i = i + 1;
        }
        proof {
            assert(bv.take(n as int) =~= bv);
        }
    }

    /// Fold one batch in under the given classification policy. Lenient
    /// counting behaves as `update_batch`: unclassifiable characters are
    /// skipped. Strict validation instead rejects a batch holding any
    /// unclassifiable character in a present read, reporting the error and
    /// leaving the state exactly as it was.
    pub fn update_batch_with(
        &mut self,
        policy: ClassifyPolicy,
        batch: &Vec<Option<String>>,
    ) -> (r: Result<(), UpdateError>)
        requires
            old(self).well_formed(),
            fits_update(old(self)@, batch.deep_view()),
        ensures
            final(self).well_formed(),
            r is Ok <==> (policy == ClassifyPolicy::Lenient || batch_clean(batch.deep_view())),
            r is Ok ==> final(self)@ == updated(old(self)@, batch.deep_view()),
            r is Err ==> final(self)@ == old(self)@ && r->Err_0
                == UpdateError::UnclassifiedSymbol,
    {
        match policy {
            ClassifyPolicy::Strict => {
                if !batch_is_clean(batch) {
                    return Err(UpdateError::UnclassifiedSymbol);
                }
            },
            ClassifyPolicy::Lenient => {},
        }
        self.update_batch(batch);
        Ok(())
    }

    /// Fold one batch in only if the state stays within a configured
    /// resource limit on the tracked length. Growth is data-controlled, so
    /// a production deployment bounds it: a batch that would grow the
    /// state past `limit` positions is rejected before anything is
    /// counted, and the state is left exactly as it was.
    pub fn update_batch_limited(
        &mut self,
        limit: usize,
        batch: &Vec<Option<String>>,
    ) -> (r: Result<(), UpdateError>)
        requires
            old(self).well_formed(),
            fits_update(old(self)@, batch.deep_view()),
        ensures
            final(self).well_formed(),
            r is Ok <==> batch_span(batch.deep_view()) <= limit,
            r is Ok ==> final(self)@ == updated(old(self)@, batch.deep_view()),
            r is Err ==> final(self)@ == old(self)@ && r->Err_0 == UpdateError::SequenceTooLong,
    {
        let span: usize = span_of_batch(batch);
        if span > limit {
            return Err(UpdateError::SequenceTooLong);
        }
        self.update_batch(batch);
        Ok(())
    }

    /// Combine another state into this one: grow to the longer length, then
    /// add the other state's counters position by position. Positions this
    /// state tracks beyond the other's length are left untouched.
    pub fn merge(&mut self, other: &BaseSequenceContent)
        requires
            old(self).well_formed(),
            other.well_formed(),
            fits_merge(old(self)@, other@),
        ensures
            final(self).well_formed(),
            final(self)@ == merged(old(self)@, other@),
    {
        let ghost s1 = self@;
        let ghost s2 = other@;
        let olen: usize = other.max_position_seen;
        self.ensure_capacity(olen);
        let mut p: usize = 0;
        while p < olen
            invariant
                self.well_formed(),
                other.well_formed(),
                p <= olen,
                s2 == other@,
                olen as nat == s2.len(),
                fits_merge(s1, s2),
                self@.len() == max_nat(s1.len(), s2.len()),
                forall|j: int|
                    0 <= j < p ==> self@[j] == add_counts(counts_at(s1, j), counts_at(s2, j)),
                forall|j: int| p <= j < self@.len() ==> self@[j] == counts_at(s1, j),
            decreases olen - p,
        {
            proof {
                assert(class_count(counts_at(s1, p as int), Base::A) + class_count(
                    counts_at(s2, p as int),
                    Base::A,
                ) <= u64::MAX);
                assert(class_count(counts_at(s1, p as int), Base::C) + class_count(
                    counts_at(s2, p as int),
                    Base::C,
                ) <= u64::MAX);
                assert(class_count(counts_at(s1, p as int), Base::G) + class_count(
                    counts_at(s2, p as int),
                    Base::G,
                ) <= u64::MAX);
                assert(class_count(counts_at(s1, p as int), Base::T) + class_count(
                    counts_at(s2, p as int),
                    Base::T,
                ) <= u64::MAX);
                assert(class_count(counts_at(s1, p as int), Base::N) + class_count(
                    counts_at(s2, p as int),
                    Base::N,
                ) <= u64::MAX);
            }
            let ghost w0 = self@;
            let va: u64 = self.a_counts[p];
            self.a_counts[p] = va + other.a_counts[p];
            let vc: u64 = self.c_counts[p];
            self.c_counts[p] = vc + other.c_counts[p];
            let vg: u64 = self.g_counts[p];
            self.g_counts[p] = vg + other.g_counts[p];
            let vt: u64 = self.t_counts[p];
            self.t_counts[p] = vt + other.t_counts[p];
            let vn: u64 = self.n_counts[p];
            self.n_counts[p] = vn + other.n_counts[p];
            proof {
                assert(self@ =~= w0.update(
                    p as int,
                    add_counts(counts_at(s1, p as int), counts_at(s2, p as int)),
                ));
            }
            p = p + 1;
        }
        proof {
            assert(self@ =~= merged(s1, s2));
        }
    }

    /// Produce an independent snapshot of the current counts for transport.
    /// The snapshot owns copies of all data; the state is not changed.
    pub fn serialize(&self) -> (r: SerializedState)
        requires
            self.well_formed(),
        ensures
            r.consistent(),
            r@ == self@,
    {
        let r = SerializedState {
            a_counts: copied_counts(&self.a_counts),
            c_counts: copied_counts(&self.c_counts),
            g_counts: copied_counts(&self.g_counts),
            t_counts: copied_counts(&self.t_counts),
            n_counts: copied_counts(&self.n_counts),
            max_position_seen: self.max_position_seen as u64,
        };
        proof {
            assert(r@ =~= self@);
        }
        r
    }

    /// Reconstruct a state from a snapshot. Succeeds exactly on consistent
    /// snapshots, yielding a state with identical counts and length; any
    /// other snapshot is rejected as a schema mismatch rather than merged
    /// into wrong numbers.
    pub fn deserialize(s: &SerializedState) -> (r: Result<BaseSequenceContent, StateError>)
        ensures
            r is Ok <==> s.consistent(),
            r is Ok ==> r->Ok_0.well_formed() && r->Ok_0@ == s@,
            r is Err ==> r->Err_0 == StateError::SchemaMismatch,
    {
        let len: usize = s.a_counts.len();
        if s.max_position_seen != len as u64 || s.c_counts.len() != len || s.g_counts.len() != len
            || s.t_counts.len() != len || s.n_counts.len() != len {
            return Err(StateError::SchemaMismatch);
        }
        let r = BaseSequenceContent {
            a_counts: copied_counts(&s.a_counts),
            c_counts: copied_counts(&s.c_counts),
            g_counts: copied_counts(&s.g_counts),
            t_counts: copied_counts(&s.t_counts),
            n_counts: copied_counts(&s.n_counts),
            max_position_seen: len,
        };
        proof {
            assert(r@ =~= s@);
        }
        Ok(r)
    }

    /// Emit the result table: one row per position in `0 .. len()`, each
    /// carrying the five raw counters observed at that position. Read-only:
    /// the state is not changed, and because the table is determined by the
    /// state alone, repeated calls yield identical tables.
    pub fn finalize(&self) -> (r: FinalResult)
        requires
            self.well_formed(),
        ensures
            r.rows@.len() == self@.len(),
            forall|i: int| 0 <= i < self@.len() ==> row_reports(r.rows@[i], i, self@[i]),
    {
        let mut rows: Vec<PositionRow> = Vec::new();
        let mut i: usize = 0;
        while i < self.max_position_seen
            invariant
                self.well_formed(),
                i <= self.max_position_seen,
                self@.len() == self.max_position_seen,
                rows@.len() == i,
                forall|j: int| 0 <= j < i ==> row_reports(rows@[j], j, self@[j]),
            decreases self.max_position_seen - i,
    {
            let row = PositionRow {
                position: i as u64,
                a_count: self.a_counts[i],
                c_count: self.c_counts[i],
                g_count: self.g_counts[i],
                t_count: self.t_counts[i],
                n_count: self.n_counts[i],
            };
            rows.push(row);
            i = i + 1;
        }
        FinalResult { rows }
    }
}

/// Why an update call was rejected. Either way the state is untouched:
/// the error is fatal to the enclosing aggregation rather than a partial
/// result.
#[derive(Clone, Copy, PartialEq, Eq, Structural, Debug)]
pub enum UpdateError {
    /// Under strict validation: a present read holds a character outside
    /// the five classes.
    UnclassifiedSymbol,
    /// Under a resource limit: the batch would grow the tracked length
    /// past the configured maximum.
    SequenceTooLong,
}

/// One past the last classifiable character of the read: how far the read
/// grows a state it is folded into.
fn span_of_read(s: &String) -> (r: usize)
    ensures
        r as nat == read_span(s@),
{
    let ghost rc = s@;
    proof {
        assert(rc.take(0) =~= Seq::<char>::empty());
        assert(read_span(Seq::<char>::empty()) == 0);
    }
    let m: usize = s.as_str().unicode_len();
    let mut span: usize = 0;
    let mut p: usize = 0;
    while p < m
        invariant
            p <= m,
            m as nat == rc.len(),
            rc == s@,
            span as nat == read_span(rc.take(p as int)),
        decreases m - p,
    {
        let ch = s.as_str().get_char(p);
        proof {
            assert(rc.take(p as int + 1).drop_last() =~= rc.take(p as int));
            assert(rc.take(p as int + 1).last() == rc[p as int]);
        }
        if classify(ch).is_some() {
            span = p + 1;
        }
        p = p + 1;
    }
    proof {
        assert(rc.take(m as int) =~= rc);
    }
    span
}

/// How far a batch grows a state it is folded into: the largest span of
/// its present reads, 0 for an empty or all-missing batch.
pub fn span_of_batch(batch: &Vec<Option<String>>) -> (r: usize)
    ensures
        r as nat == batch_span(batch.deep_view()),
{
    let ghost bv = batch.deep_view();
    proof {
        assert(bv.take(0) =~= Seq::<Option<Seq<char>>>::empty());
        assert(batch_span(Seq::<Option<Seq<char>>>::empty()) == 0);
    }
    let n: usize = batch.len();
    let mut widest: usize = 0;
    let mut i: usize = 0;
    while i < n
        invariant
            i <= n,
            n == batch@.len(),
            bv == batch.deep_view(),
            widest as nat == batch_span(bv.take(i as int)),
        decreases n - i,
    {
        proof {
            assert(bv.take(i as int + 1).drop_last() =~= bv.take(i as int));
            assert(bv.take(i as int + 1).last() == bv[i as int]);
        }
        match &batch[i] {
            None => {
                proof {
                    assert(bv[i as int] is None);
                }
            },
            Some(s) => {
                proof {
                    assert(bv[i as int] == Some(s@));
                }
                let sp: usize = span_of_read(s);
                if sp > widest {
                    widest = sp;
                }
            },
        }
        i = i + 1;
    }
    proof {
        assert(bv.take(n as int) =~= bv);
    }
    widest
}

/// Whether every character of every present read of the batch is
/// classifiable.
pub fn batch_is_clean(batch: &Vec<Option<String>>) -> (r: bool)
    ensures
        r == batch_clean(batch.deep_view()),
{
    let ghost bv = batch.deep_view();
    let n: usize = batch.len();
    let mut i: usize = 0;
    while i < n
        invariant
            i <= n,
            n == batch@.len(),
            bv == batch.deep_view(),
            forall|k: int|
                0 <= k < i ==> match #[trigger] bv[k] {
                    Some(read) => read_clean(read),
                    None => true,
                },
        decreases n - i,
    {
        match &batch[i] {
            None => {},
            Some(s) => {
                let ghost rc = s@;
                proof {
                    assert(bv[i as int] == Some(rc));
                }
                let m: usize = s.as_str().unicode_len();
                let mut p: usize = 0;
                while p < m
                    invariant
                        p <= m,
                        m as nat == rc.len(),
                        rc == s@,
                        i < n,
                        n == bv.len(),
                        bv[i as int] == Some(rc),
                        bv == batch.deep_view(),
                        forall|q: int| 0 <= q < p ==> (#[trigger] classify_spec(rc[q])) is Some,
                    decreases m - p,
                {
                    let ch = s.as_str().get_char(p);
                    if classify(ch).is_none() {
                        proof {
                            assert(!read_clean(rc));
                            assert(!batch_clean(bv));
                        }
                        return false;
                    }
                    p = p + 1;
                }
                proof {
                    assert(read_clean(rc));
                }
            },
        }
        i = i + 1;
    }
    true
}

/// An element-for-element copy of one counter sequence.
fn copied_counts(v: &Vec<u64>) -> (r: Vec<u64>)
    ensures
        r@ == v@,
{
    let mut r: Vec<u64> = Vec::new();
    let mut i: usize = 0;
    while i < v.len()
        invariant
            i <= v@.len(),
            r@ == v@.take(i as int),
        decreases v@.len() - i,
    {
        r.push(v[i]);
        proof {
            assert(v@.take(i as int + 1) =~= v@.take(i as int).push(v@[i as int]));
        }
        i = i + 1;
    }
    proof {
        assert(v@.take(v@.len() as int) =~= v@);
    }
    r
}

/// The counter that an increment at `(b, p)` lands on still has room: the
/// contributions already folded in, plus this one, stay within the batch's
/// total at `(b, p)`, which the update precondition bounds.
proof fn lemma_update_step_fits(
    s_init: Seq<PosCounts>,
    bv: Seq<Option<Seq<char>>>,
    i: int,
    r: Seq<char>,
    p: int,
    b: Base,
)
    requires
        0 <= i < bv.len(),
        bv[i] == Some(r),
        0 <= p < r.len(),
        classify_spec(r[p]) == Some(b),
        fits_update(s_init, bv),
    ensures
        class_count(counts_at(s_init, p), b) + batch_count(bv.take(i), b, p) + 1 <= u64::MAX,
{
    assert(bv =~= bv.take(i + 1) + bv.skip(i + 1));
    lemma_batch_count_concat(bv.take(i + 1), bv.skip(i + 1), b, p);
    assert(bv.take(i + 1).drop_last() =~= bv.take(i));
    assert(bv.take(i + 1).last() == Some(r));
    assert(read_count(r, b, p) == 1);
    assert(batch_count(bv.take(i + 1), b, p) == batch_count(bv.take(i), b, p) + 1);
    assert(class_count(counts_at(s_init, p), b) + batch_count(bv, b, p) <= u64::MAX);
}

} // verus!

use base_composition::Base;
use base_composition::BaseSequenceContent;
use base_composition::ClassifyPolicy;
use base_composition::UpdateError;
use base_composition::batch_is_clean;
use base_composition::span_of_batch;
use base_composition::FinalResult;
use base_composition::PositionRow;
use base_composition::StateError;
use base_composition::classify;

fn batch_of(reads: &[Option<&str>]) -> Vec<Option<String>> {
    reads.iter().map(|r| r.map(|s| s.to_string())).collect()
}

fn row(position: u64, a: u64, c: u64, g: u64, t: u64, n: u64) -> PositionRow {
    PositionRow { position, a_count: a, c_count: c, g_count: g, t_count: t, n_count: n }
}

fn state_of(reads: &[Option<&str>]) -> BaseSequenceContent {
    let mut state = BaseSequenceContent::new();
    state.update_batch(&batch_of(reads));
    state
}

#[test]
fn classify_upper_and_lower() {
    assert_eq!(classify('A'), Some(Base::A));
    assert_eq!(classify('a'), Some(Base::A));
    assert_eq!(classify('C'), Some(Base::C));
    assert_eq!(classify('c'), Some(Base::C));
    assert_eq!(classify('G'), Some(Base::G));
    assert_eq!(classify('g'), Some(Base::G));
    assert_eq!(classify('T'), Some(Base::T));
    assert_eq!(classify('t'), Some(Base::T));
    assert_eq!(classify('N'), Some(Base::N));
    assert_eq!(classify('n'), Some(Base::N));
}

#[test]
fn classify_rejects_other_symbols() {
    for ch in ['U', 'u', 'R', 'Y', 'X', '?', ' ', '-', '0', 'Ñ'] {
        assert_eq!(classify(ch), None);
    }
}

#[test]
fn fresh_state_is_empty() {
    let state = BaseSequenceContent::new();
    assert_eq!(state.len(), 0);
    assert!(state.finalize().rows.is_empty());
}

#[test]
fn three_reads_exact_table() {
    let state = state_of(&[Some("ACGT"), Some("AACT"), Some("N")]);
    let result = state.finalize();
    assert_eq!(
        result.rows,
        vec![
            row(0, 2, 0, 0, 0, 1),
            row(1, 1, 1, 0, 0, 0),
            row(2, 0, 1, 1, 0, 0),
            row(3, 0, 0, 0, 2, 0),
        ]
    );
}

#[test]
fn partitioned_runs_merge_to_the_same_table() {
    let single = state_of(&[Some("ACGT"), Some("AACT"), Some("N")]);

    let mut left = state_of(&[Some("ACGT")]);
    let right = state_of(&[Some("AACT"), Some("N")]);
    left.merge(&right);
    assert_eq!(left.finalize(), single.finalize());

    let mut reversed = state_of(&[Some("AACT"), Some("N")]);
    let other = state_of(&[Some("ACGT")]);
    reversed.merge(&other);
    assert_eq!(reversed.finalize(), single.finalize());
}

#[test]
fn merge_grouping_does_not_matter() {
    let parts: [&[Option<&str>]; 3] = [
        &[Some("ACGTACGT"), None],
        &[Some("NNN"), Some("acg")],
        &[Some("TT"), Some("GATTACA")],
    ];
    let all: Vec<Option<&str>> = parts.iter().flat_map(|p| p.iter().cloned()).collect();
    let single = state_of(&all).finalize();

    // ((s1 + s2) + s3)
    let mut x = state_of(parts[0]);
    x.merge(&state_of(parts[1]));
    x.merge(&state_of(parts[2]));
    assert_eq!(x.finalize(), single);

    // (s1 + (s2 + s3))
    let mut yz = state_of(parts[1]);
    yz.merge(&state_of(parts[2]));
    let mut y = state_of(parts[0]);
    y.merge(&yz);
    assert_eq!(y.finalize(), single);

    // (s3 + (s2 + s1)): another order
    let mut zy = state_of(parts[1]);
    zy.merge(&state_of(parts[0]));
    let mut z = state_of(parts[2]);
    z.merge(&zy);
    assert_eq!(z.finalize(), single);
}

#[test]
fn update_split_does_not_matter() {
    let whole = state_of(&[Some("ACGT"), Some("AACT"), Some("N"), Some("ggg")]);

    let mut split = BaseSequenceContent::new();
    split.update_batch(&batch_of(&[Some("ACGT")]));
    split.update_batch(&batch_of(&[Some("AACT"), Some("N")]));
    split.update_batch(&batch_of(&[]));
    split.update_batch(&batch_of(&[Some("ggg")]));
    assert_eq!(split.finalize(), whole.finalize());
}

#[test]
fn growth_keeps_prior_counters() {
    let mut state = state_of(&[Some("ACGT")]);
    let before = state.finalize();
    state.ensure_capacity(10);
    assert_eq!(state.len(), 10);
    let after = state.finalize();
    assert_eq!(after.rows.len(), 10);
    assert_eq!(&after.rows[..4], &before.rows[..]);
    for p in 4..10 {
        assert_eq!(after.rows[p], row(p as u64, 0, 0, 0, 0, 0));
    }
}

#[test]
fn ensure_capacity_never_truncates() {
    let mut state = state_of(&[Some("ACGT")]);
    state.ensure_capacity(2);
    assert_eq!(state.len(), 4);
    assert_eq!(state.finalize(), state_of(&[Some("ACGT")]).finalize());
}

#[test]
fn serialize_round_trip_preserves_merge() {
    let x = state_of(&[Some("ACGT"), Some("NNNNNN")]);
    let y = state_of(&[Some("TTCA"), Some("gg")]);

    let mut direct = state_of(&[Some("ACGT"), Some("NNNNNN")]);
    direct.merge(&y);

    let restored = BaseSequenceContent::deserialize(&y.serialize()).unwrap();
    let mut via_snapshot = x;
    via_snapshot.merge(&restored);

    assert_eq!(via_snapshot.finalize(), direct.finalize());
}

#[test]
fn deserialize_restores_counts_and_length() {
    let state = state_of(&[Some("ACGTN"), Some("aaaa")]);
    let restored = BaseSequenceContent::deserialize(&state.serialize()).unwrap();
    assert_eq!(restored.len(), state.len());
    assert_eq!(restored.finalize(), state.finalize());
}

#[test]
fn deserialize_rejects_mismatched_lengths() {
    let mut snapshot = state_of(&[Some("ACGT")]).serialize();
    snapshot.g_counts.pop();
    match BaseSequenceContent::deserialize(&snapshot) {
        Err(e) => assert_eq!(e, StateError::SchemaMismatch),
        Ok(_) => panic!("snapshot with a short counter sequence was accepted"),
    }

    let mut wrong_len = state_of(&[Some("ACGT")]).serialize();
    wrong_len.max_position_seen = 3;
    match BaseSequenceContent::deserialize(&wrong_len) {
        Err(e) => assert_eq!(e, StateError::SchemaMismatch),
        Ok(_) => panic!("snapshot with a wrong recorded length was accepted"),
    }
}

#[test]
fn finalize_is_idempotent() {
    let state = state_of(&[Some("ACGT"), Some("NN")]);
    let first = state.finalize();
    let second = state.finalize();
    assert_eq!(first, second);
    assert_eq!(state.len(), 4);
}

#[test]
fn empty_and_all_null_batches_leave_state_empty() {
    let mut state = BaseSequenceContent::new();
    state.update_batch(&batch_of(&[]));
    assert_eq!(state.len(), 0);
    state.update_batch(&batch_of(&[None, None, None]));
    assert_eq!(state.len(), 0);
    assert_eq!(state.finalize(), FinalResult { rows: Vec::new() });
}

#[test]
fn lowercase_read_counts_like_uppercase() {
    let lower = state_of(&[Some("acgt")]);
    let upper = state_of(&[Some("ACGT")]);
    assert_eq!(lower.finalize(), upper.finalize());
}

#[test]
fn null_entries_are_skipped() {
    let with_nulls = state_of(&[None, Some("ACGT"), None, Some("AACT"), Some("N"), None]);
    let without = state_of(&[Some("ACGT"), Some("AACT"), Some("N")]);
    assert_eq!(with_nulls.finalize(), without.finalize());
}

#[test]
fn unclassified_symbols_are_skipped() {
    let noisy = state_of(&[Some("AXC?")]);
    let result = noisy.finalize();
    assert_eq!(
        result.rows,
        vec![
            row(0, 1, 0, 0, 0, 0),
            row(1, 0, 0, 0, 0, 0),
            row(2, 0, 1, 0, 0, 0),
        ]
    );
}

#[test]
fn read_of_only_unclassified_symbols_grows_nothing() {
    let state = state_of(&[Some("XYZ?")]);
    assert_eq!(state.len(), 0);
    assert!(state.finalize().rows.is_empty());
}

#[test]
fn strict_policy_rejects_unclassified_symbols() {
    let mut state = state_of(&[Some("ACGT")]);
    let before = state.finalize();
    let outcome = state.update_batch_with(ClassifyPolicy::Strict, &batch_of(&[Some("ACXT")]));
    assert_eq!(outcome, Err(UpdateError::UnclassifiedSymbol));
    assert_eq!(state.finalize(), before);
}

#[test]
fn strict_policy_accepts_clean_batches() {
    let reads = [Some("ACGT"), None, Some("nn")];
    let mut strict = BaseSequenceContent::new();
    strict
        .update_batch_with(ClassifyPolicy::Strict, &batch_of(&reads))
        .unwrap();
    assert_eq!(strict.finalize(), state_of(&reads).finalize());
}

#[test]
fn lenient_policy_counts_like_plain_update() {
    let mut state = BaseSequenceContent::new();
    state
        .update_batch_with(ClassifyPolicy::Lenient, &batch_of(&[Some("AXC?")]))
        .unwrap();
    assert_eq!(state.finalize(), state_of(&[Some("AXC?")]).finalize());
}

#[test]
fn cleanliness_scan_finds_any_stray_symbol() {
    assert!(batch_is_clean(&batch_of(&[])));
    assert!(batch_is_clean(&batch_of(&[None])));
    assert!(batch_is_clean(&batch_of(&[Some("ACGTNacgtn"), None])));
    assert!(!batch_is_clean(&batch_of(&[Some("ACGU")])));
    assert!(!batch_is_clean(&batch_of(&[None, Some("A CGT")])));
}

#[test]
fn span_scan_measures_classifiable_reach() {
    assert_eq!(span_of_batch(&batch_of(&[])), 0);
    assert_eq!(span_of_batch(&batch_of(&[None, None])), 0);
    assert_eq!(span_of_batch(&batch_of(&[Some("ACGT"), Some("NN")])), 4);
    // a trailing unclassifiable character does not extend the reach
    assert_eq!(span_of_batch(&batch_of(&[Some("ACX"), None])), 2);
    assert_eq!(span_of_batch(&batch_of(&[Some("XXXX")])), 0);
}

#[test]
fn length_limit_rejects_overlong_batches() {
    let mut state = state_of(&[Some("ACGT")]);
    let before = state.finalize();
    let outcome = state.update_batch_limited(5, &batch_of(&[Some("AACTGN")]));
    assert_eq!(outcome, Err(UpdateError::SequenceTooLong));
    assert_eq!(state.finalize(), before);
}

#[test]
fn length_limit_admits_batches_at_the_limit() {
    let reads = [Some("AACTGN"), None, Some("gg")];
    let mut limited = BaseSequenceContent::new();
    limited.update_batch_limited(6, &batch_of(&reads)).unwrap();
    assert_eq!(limited.finalize(), state_of(&reads).finalize());
}

#[test]
fn positions_count_characters_not_bytes() {
    let state = state_of(&[Some("AñG")]);
    let result = state.finalize();
    assert_eq!(
        result.rows,
        vec![
            row(0, 1, 0, 0, 0, 0),
            row(1, 0, 0, 0, 0, 0),
            row(2, 0, 0, 1, 0, 0),
        ]
    );
}

#[test]
fn merge_with_fresh_state_is_identity() {
    let mut state = state_of(&[Some("ACGT"), Some("N")]);
    let reference = state.finalize();
    state.merge(&BaseSequenceContent::new());
    assert_eq!(state.finalize(), reference);

    let mut fresh = BaseSequenceContent::new();
    fresh.merge(&state);
    assert_eq!(fresh.finalize(), reference);
}

#[test]
fn merge_leaves_longer_tail_untouched() {
    let mut long = state_of(&[Some("ACGTACGT")]);
    let short = state_of(&[Some("TT")]);
    long.merge(&short);
    let result = long.finalize();
    assert_eq!(result.rows.len(), 8);
    assert_eq!(result.rows[0], row(0, 1, 0, 0, 1, 0));
    assert_eq!(result.rows[1], row(1, 0, 1, 0, 1, 0));
    assert_eq!(&result.rows[2..], &state_of(&[Some("ACGTACGT")]).finalize().rows[2..]);
}

#[test]
fn count_and_len_report_the_state() {
    let state = state_of(&[Some("AAN"), Some("CA")]);
    assert_eq!(state.len(), 3);
    assert_eq!(state.count(Base::A, 0), 1);
    assert_eq!(state.count(Base::C, 0), 1);
    assert_eq!(state.count(Base::A, 1), 2);
    assert_eq!(state.count(Base::N, 2), 1);
    assert_eq!(state.count(Base::G, 2), 0);
}

#[test]
fn increment_adds_one_to_one_counter() {
    let mut state = BaseSequenceContent::new();
    state.ensure_capacity(2);
    state.increment(Base::G, 1);
    state.increment(Base::G, 1);
    state.increment(Base::T, 0);
    let result = state.finalize();
    assert_eq!(result.rows, vec![row(0, 0, 0, 0, 1, 0), row(1, 0, 0, 2, 0, 0)]);
}

#[test]
fn serialized_snapshot_owns_plain_copies() {
    let state = state_of(&[Some("AANN"), Some("CG")]);
    let snapshot = state.serialize();
    assert_eq!(snapshot.max_position_seen, 4);
    assert_eq!(snapshot.a_counts, vec![1, 1, 0, 0]);
    assert_eq!(snapshot.c_counts, vec![1, 0, 0, 0]);
    assert_eq!(snapshot.g_counts, vec![0, 1, 0, 0]);
    assert_eq!(snapshot.t_counts, vec![0, 0, 0, 0]);
    assert_eq!(snapshot.n_counts, vec![0, 0, 1, 1]);
}

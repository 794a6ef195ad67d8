use nautilus_fuzzer::metadata::{stats_line, CorrectnessMetadata, MAX_CORRECTNESS_STEPS};

#[test]
fn fresh_histogram_counts_nothing() {
    let md = CorrectnessMetadata::new();
    assert_eq!(md.total_hits(), 0);
    assert!(md.nonzero_counts().is_empty());
    assert_eq!(md.count(0), 0);
    assert_eq!(md.count(MAX_CORRECTNESS_STEPS), 0);
}

#[test]
fn recording_steps_counts_each_run_once() {
    let mut md = CorrectnessMetadata::new();
    md.record_step(3);
    md.record_step(0);
    md.record_step(3);
    md.record_step(MAX_CORRECTNESS_STEPS);
    assert_eq!(md.total_hits(), 4);
    assert_eq!(md.count(3), 2);
    assert_eq!(md.count(0), 1);
    assert_eq!(md.count(1), 0);
    assert_eq!(md.nonzero_counts(), vec![(0, 1), (3, 2), (MAX_CORRECTNESS_STEPS, 1)]);
    let reported: usize = md.nonzero_counts().iter().map(|(_, c)| c).sum();
    assert_eq!(reported, md.total_hits());
}

#[test]
fn stats_line_lists_steps_with_their_shares() {
    let entries = vec![(0usize, 1usize), (3, 2), (1024, 1)];
    let shares = vec!["0.250".to_string(), "0.500".to_string(), "0.250".to_string()];
    assert_eq!(stats_line(&entries, &shares), "0: 0.250, 3: 0.500, 1024: 0.250");
    assert_eq!(stats_line(&vec![(12, 5)], &vec!["1.000".to_string()]), "12: 1.000");
    assert_eq!(stats_line(&vec![], &vec![]), "");
}

#[test]
fn histogram_round_trips_through_its_counts() {
    let mut md = CorrectnessMetadata::new();
    md.record_step(5);
    md.record_step(5);
    let counts = md.counts().clone();
    assert_eq!(counts.len(), MAX_CORRECTNESS_STEPS + 1);
    assert_eq!(counts[5], 2);
    let back = CorrectnessMetadata::from_counts(counts).unwrap();
    assert_eq!(back.total_hits(), 2);
    assert_eq!(back.nonzero_counts(), vec![(5, 2)]);
}

#[test]
fn malformed_counts_are_refused() {
    assert!(CorrectnessMetadata::from_counts(vec![0; MAX_CORRECTNESS_STEPS]).is_none());
    assert!(CorrectnessMetadata::from_counts(vec![]).is_none());
    let mut too_many = vec![0usize; MAX_CORRECTNESS_STEPS + 1];
    too_many[0] = usize::MAX;
    too_many[7] = 1;
    assert!(CorrectnessMetadata::from_counts(too_many).is_none());
    let mut full = vec![0usize; MAX_CORRECTNESS_STEPS + 1];
    full[3] = usize::MAX;
    assert_eq!(CorrectnessMetadata::from_counts(full).unwrap().total_hits(), usize::MAX);
}

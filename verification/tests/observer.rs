use nautilus_fuzzer::observer::CorrectnessObserver;

#[test]
fn observer_starts_at_zero_with_its_name() {
    let o = CorrectnessObserver::new("correctness_0".to_string());
    assert_eq!(o.step(), 0);
    assert_eq!(o.name(), "correctness_0");
    let g = CorrectnessObserver::new_global("correctness".to_string());
    assert_eq!(g.step(), 0);
    assert_eq!(g.name(), "correctness");
}

#[test]
fn observer_holds_the_step_of_the_last_run() {
    let mut o = CorrectnessObserver::new("c".to_string());
    o.pre_exec();
    o.post_exec(17);
    assert_eq!(o.step(), 17);
    o.pre_exec();
    assert_eq!(o.step(), 0);
    o.post_exec(3);
    assert_eq!(o.step(), 3);
    assert_eq!(o.name(), "c");
}

use golem_cli::up_to_date::should_skip;

#[test]
fn force_never_skips() {
    assert!(!should_skip(true, false, &vec![Some(1)], &vec![Some(5)]));
}

#[test]
fn stale_marker_never_skips() {
    assert!(!should_skip(false, true, &vec![Some(1)], &vec![Some(5)]));
}

#[test]
fn missing_output_never_skips() {
    assert!(!should_skip(false, false, &vec![Some(1)], &vec![None]));
    assert!(!should_skip(false, false, &vec![Some(1)], &vec![Some(5), None]));
}

#[test]
fn missing_input_never_skips() {
    assert!(!should_skip(false, false, &vec![None], &vec![Some(5)]));
}

#[test]
fn newer_input_never_skips() {
    assert!(!should_skip(false, false, &vec![Some(3), Some(9)], &vec![Some(5)]));
}

#[test]
fn fresh_marker_and_older_inputs_skip() {
    assert!(should_skip(false, false, &vec![Some(3), Some(4)], &vec![Some(5)]));
    // Equal timestamps are not strictly newer.
    assert!(should_skip(false, false, &vec![Some(5)], &vec![Some(5)]));
}

#[test]
fn empty_inputs_are_vacuously_not_newer() {
    assert!(should_skip(false, false, &vec![], &vec![Some(0)]));
}

use multitest::outcome::{RunConfigResult, SummaryLine};

fn result(ignored: u32, successes: &[&str], failures: &[&str]) -> RunConfigResult {
    RunConfigResult {
        ignored,
        successes: successes.iter().map(|name| name.to_string()).collect(),
        failures: failures.iter().map(|name| name.to_string()).collect(),
    }
}

#[test]
fn default_is_empty() {
    assert_eq!(RunConfigResult::default(), result(0, &[], &[]));
}

#[test]
fn merge_appends_in_order() {
    let mut left = result(1, &["a"], &["x"]);
    left.merge(result(2, &["b", "c"], &["y"]));
    assert_eq!(left, result(3, &["a", "b", "c"], &["x", "y"]));
}

#[test]
fn merge_is_associative() {
    let mut grouped_left = result(1, &["a"], &[]);
    grouped_left.merge(result(0, &["b"], &["x"]));
    grouped_left.merge(result(4, &[], &["y"]));

    let mut tail = result(0, &["b"], &["x"]);
    tail.merge(result(4, &[], &["y"]));
    let mut grouped_right = result(1, &["a"], &[]);
    grouped_right.merge(tail);

    assert_eq!(grouped_left, grouped_right);
    assert_eq!(grouped_left, result(5, &["a", "b"], &["x", "y"]));
}

#[test]
fn merge_with_nothing_keeps_the_verdict() {
    for case in [result(0, &["a"], &[]), result(3, &[], &[]), result(0, &["a"], &["b"])] {
        let before = case.is_success();
        let mut merged = case;
        merged.merge(RunConfigResult::default());
        assert_eq!(merged.is_success(), before);
    }
}

#[test]
fn success_needs_a_run_and_no_failure() {
    assert!(result(0, &["a"], &[]).is_success());
    assert!(result(7, &["a", "b"], &[]).is_success());
    assert!(!result(0, &[], &[]).is_success());
    assert!(!result(5, &[], &[]).is_success());
    assert!(!result(0, &["a"], &["b"]).is_success());
    assert!(!result(0, &[], &["b"]).is_success());
}

#[test]
fn recording_appends_one_outcome() {
    let mut tally = RunConfigResult::default();
    tally.record_success("one".to_string());
    tally.record_failure("two".to_string());
    tally.record_ignored();
    tally.record_success("three".to_string());
    assert_eq!(tally, result(1, &["one", "three"], &["two"]));
}

#[test]
fn summary_lists_successes_failures_and_ignored() {
    let lines = result(2, &["a", "b"], &["x"]).summary();
    assert_eq!(
        lines,
        vec![
            SummaryLine::SuccessesHeader { passed: 2, failed: 1 },
            SummaryLine::Success("a".to_string()),
            SummaryLine::Success("b".to_string()),
            SummaryLine::FailuresHeader { passed: 2, failed: 1 },
            SummaryLine::Failure("x".to_string()),
            SummaryLine::Ignored(2),
        ]
    );
}

#[test]
fn summary_of_nothing_says_so() {
    assert_eq!(
        result(0, &[], &[]).summary(),
        vec![SummaryLine::Ignored(0), SummaryLine::NothingExecuted]
    );
    assert_eq!(
        result(3, &[], &[]).summary(),
        vec![SummaryLine::Ignored(3), SummaryLine::NothingExecuted]
    );
}

#[test]
fn summary_leaves_out_empty_parts() {
    assert_eq!(
        result(0, &["a"], &[]).summary(),
        vec![
            SummaryLine::SuccessesHeader { passed: 1, failed: 0 },
            SummaryLine::Success("a".to_string()),
            SummaryLine::Ignored(0),
        ]
    );
    assert_eq!(
        result(0, &[], &["x"]).summary(),
        vec![
            SummaryLine::FailuresHeader { passed: 0, failed: 1 },
            SummaryLine::Failure("x".to_string()),
            SummaryLine::Ignored(0),
        ]
    );
}

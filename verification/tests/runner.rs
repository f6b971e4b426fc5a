use multitest::error::{Field, RunError};
use multitest::outcome::RunConfigResult;
use multitest::filter::is_selected;
use multitest::runner::{find_config_file, run_config, run_config_root, Action, Event, Runner};
use multitest::test::{Launch, Test};
use regex::Regex;

fn strings(items: &[&str]) -> Vec<String> {
    items.iter().map(|item| item.to_string()).collect()
}

fn plain(name: &str, command: &[&str]) -> Test {
    Test::new(name.to_string(), strings(command), false, vec![])
}

fn result(ignored: u32, successes: &[&str], failures: &[&str]) -> RunConfigResult {
    RunConfigResult { ignored, successes: strings(successes), failures: strings(failures) }
}

fn opened(text: &str, dir: &str) -> Event {
    Event::Opened { text: text.to_string(), dir: dir.to_string() }
}

fn exited(code: i32) -> Event {
    Event::Finished(Launch::Exited(code))
}

fn failed(message: &str) -> Event {
    Event::Failed(message.to_string())
}

fn open(path: &str) -> Action {
    Action::Open(path.to_string())
}

fn run(name: &str, command: &[&str]) -> Action {
    Action::Run(plain(name, command))
}

fn skip(name: &str) -> Action {
    Action::Skip(name.to_string())
}

fn start(path: &str, filter: Option<&str>) -> Runner {
    let (runner, action) =
        run_config(path.to_string(), filter.map(|filter| Regex::new(filter).unwrap()));
    assert_eq!(action, open(path));
    runner
}

const MATRIX: &str = "[[tests]]\nname = \"t-{{n}}\"\ncommand = [\"echo\", \"{{n}}\"]\n\
                      [tests.variables]\nn = [\"x\", \"y\"]\n";

const THREE: &str = "[[tests]]\nname = \"one\"\ncommand = [\"first\"]\n\
                     [[tests]]\nname = \"two\"\ncommand = [\"missing-program\"]\n\
                     [[tests]]\nname = \"three\"\ncommand = [\"third\"]\n";

#[test]
fn filter_selects_by_search() {
    assert!(is_selected(&None, "anything"));
    let filter = Some(Regex::new("^t-[xy]$").unwrap());
    assert!(is_selected(&filter, "t-x"));
    assert!(!is_selected(&filter, "t-z"));
    assert!(!is_selected(&filter, "at-x"));
    let part = Some(Regex::new("x").unwrap());
    assert!(is_selected(&part, "prefix-t"));
    assert!(!is_selected(&part, "t-y"));
}

#[test]
fn matrix_of_two_runs_in_order_and_succeeds() {
    let mut runner = start("multitest.toml", None);
    assert_eq!(runner.step(opened(MATRIX, "")), Action::Continue);
    assert_eq!(runner.step(Event::Resumed), run("t-x", &["echo", "x"]));
    assert_eq!(runner.step(exited(0)), run("t-y", &["echo", "y"]));
    assert_eq!(runner.step(exited(0)), Action::Leave);
    match runner.step(Event::Left) {
        Action::Done(Ok(outcome)) => {
            assert_eq!(outcome, result(0, &["t-x", "t-y"], &[]));
            assert!(outcome.is_success());
        }
        other => panic!("{:?}", other),
    }
}

#[test]
fn launch_failure_is_one_failure_and_the_run_goes_on() {
    let mut runner = start("multitest.toml", None);
    assert_eq!(runner.step(opened(THREE, "")), Action::Continue);
    assert_eq!(runner.step(Event::Resumed), run("one", &["first"]));
    assert_eq!(runner.step(exited(0)), Action::Continue);
    assert_eq!(runner.step(Event::Resumed), run("two", &["missing-program"]));
    assert_eq!(
        runner.step(Event::Finished(Launch::Failed("No such file or directory".to_string()))),
        Action::Continue
    );
    assert_eq!(runner.step(Event::Resumed), run("three", &["third"]));
    assert_eq!(runner.step(Event::Finished(Launch::Killed)), Action::Leave);
    match runner.step(Event::Left) {
        Action::Done(Ok(outcome)) => {
            assert_eq!(outcome, result(0, &["one"], &["two", "three"]));
            assert!(!outcome.is_success());
        }
        other => panic!("{:?}", other),
    }
}

#[test]
fn nonzero_exit_is_a_failure() {
    let mut runner = start("multitest.toml", None);
    assert_eq!(runner.step(opened(MATRIX, "")), Action::Continue);
    assert_eq!(runner.step(Event::Resumed), run("t-x", &["echo", "x"]));
    assert_eq!(runner.step(exited(3)), run("t-y", &["echo", "y"]));
    assert_eq!(runner.step(exited(0)), Action::Leave);
    assert_eq!(runner.step(Event::Left), Action::Done(Ok(result(0, &["t-y"], &["t-x"]))));
}

#[test]
fn filter_that_matches_nothing_ignores_everything() {
    let mut runner = start("multitest.toml", Some("^nothing$"));
    assert_eq!(runner.step(opened(MATRIX, "")), Action::Continue);
    assert_eq!(runner.step(Event::Resumed), skip("t-x"));
    assert_eq!(runner.step(Event::Resumed), skip("t-y"));
    assert_eq!(runner.step(Event::Resumed), Action::Leave);
    match runner.step(Event::Left) {
        Action::Done(Ok(outcome)) => {
            assert_eq!(outcome, result(2, &[], &[]));
            assert!(!outcome.is_success());
        }
        other => panic!("{:?}", other),
    }
}

#[test]
fn filter_selects_some() {
    let mut runner = start("multitest.toml", Some("e$"));
    assert_eq!(runner.step(opened(THREE, "")), Action::Continue);
    assert_eq!(runner.step(Event::Resumed), run("one", &["first"]));
    assert_eq!(runner.step(exited(0)), Action::Continue);
    assert_eq!(runner.step(Event::Resumed), skip("two"));
    assert_eq!(runner.step(Event::Resumed), Action::Continue);
    assert_eq!(runner.step(Event::Resumed), run("three", &["third"]));
    assert_eq!(runner.step(exited(0)), Action::Leave);
    assert_eq!(runner.step(Event::Left), Action::Done(Ok(result(1, &["one", "three"], &[]))));
}

#[test]
fn empty_config_runs_nothing_and_fails() {
    let mut runner = start("multitest.toml", None);
    assert_eq!(runner.step(opened("", "")), Action::Leave);
    match runner.step(Event::Left) {
        Action::Done(Ok(outcome)) => {
            assert_eq!(outcome, result(0, &[], &[]));
            assert!(!outcome.is_success());
        }
        other => panic!("{:?}", other),
    }
}

#[test]
fn a_variable_without_values_leaves_the_other_tests_alone() {
    let config = "[[tests]]\nname = \"none-{{n}}\"\ncommand = [\"x\"]\n[tests.variables]\nn = []\n\
                  [[tests]]\nname = \"some\"\ncommand = [\"y\"]\n";
    let mut runner = start("multitest.toml", None);
    assert_eq!(runner.step(opened(config, "")), Action::Continue);
    assert_eq!(runner.step(Event::Resumed), Action::Continue);
    assert_eq!(runner.step(Event::Resumed), run("some", &["y"]));
    assert_eq!(runner.step(exited(0)), Action::Leave);
    assert_eq!(runner.step(Event::Left), Action::Done(Ok(result(0, &["some"], &[]))));
}

#[test]
fn directory_of_the_file_is_entered_first() {
    let mut runner = start("conf/multitest.toml", None);
    assert_eq!(runner.step(opened(MATRIX, "conf")), Action::Enter("conf".to_string()));
    assert_eq!(runner.step(Event::Entered), Action::Continue);
    assert_eq!(runner.step(Event::Resumed), run("t-x", &["echo", "x"]));
}

#[test]
fn includes_run_after_the_tests_and_are_merged_in_match_order() {
    let root = "includes = [\"sub/*.toml\"]\n[[tests]]\nname = \"root\"\ncommand = [\"r\"]\n";
    let first = "[[tests]]\nname = \"a\"\ncommand = [\"a\"]\n";
    let second = "[[tests]]\nname = \"b-{{n}}\"\ncommand = [\"b\"]\n[tests.variables]\nn = [1, 2]\n";

    let mut runner = start("conf/multitest.toml", Some("^(root|a|b-1)$"));
    assert_eq!(runner.step(opened(root, "conf")), Action::Enter("conf".to_string()));
    assert_eq!(runner.step(Event::Entered), Action::Glob("sub/*.toml".to_string()));
    assert_eq!(
        runner.step(Event::Matched(strings(&["sub/a.toml", "sub/b.toml"]))),
        Action::Continue
    );
    assert_eq!(runner.step(Event::Resumed), run("root", &["r"]));
    assert_eq!(runner.step(exited(0)), open("sub/a.toml"));

    assert_eq!(runner.step(opened(first, "sub")), Action::Enter("sub".to_string()));
    assert_eq!(runner.step(Event::Entered), Action::Continue);
    assert_eq!(runner.step(Event::Resumed), run("a", &["a"]));
    assert_eq!(runner.step(exited(1)), Action::Leave);
    assert_eq!(runner.step(Event::Left), open("sub/b.toml"));

    assert_eq!(runner.step(opened(second, "sub")), Action::Enter("sub".to_string()));
    assert_eq!(runner.step(Event::Entered), Action::Continue);
    assert_eq!(runner.step(Event::Resumed), run("b-1", &["b"]));
    assert_eq!(runner.step(exited(0)), skip("b-2"));
    assert_eq!(runner.step(Event::Resumed), Action::Leave);
    assert_eq!(runner.step(Event::Left), Action::Leave);

    assert_eq!(runner.step(Event::Left), Action::Done(Ok(result(1, &["root", "b-1"], &["a"]))));
}

#[test]
fn several_patterns_are_resolved_in_order() {
    let root = "includes = [\"one/*.toml\", \"two.toml\", \"none/*\"]\n";
    let mut runner = start("multitest.toml", None);
    assert_eq!(runner.step(opened(root, "")), Action::Glob("one/*.toml".to_string()));
    assert_eq!(
        runner.step(Event::Matched(strings(&["one/a.toml", "one/b.toml"]))),
        Action::Glob("two.toml".to_string())
    );
    assert_eq!(
        runner.step(Event::Matched(strings(&["two.toml"]))),
        Action::Glob("none/*".to_string())
    );
    assert_eq!(runner.step(Event::Matched(vec![])), open("one/a.toml"));
    assert_eq!(runner.step(opened("", "one")), Action::Enter("one".to_string()));
    assert_eq!(runner.step(Event::Entered), Action::Leave);
    assert_eq!(runner.step(Event::Left), open("one/b.toml"));
    assert_eq!(runner.step(opened("", "")), Action::Leave);
    assert_eq!(runner.step(Event::Left), open("two.toml"));
    assert_eq!(runner.step(opened("", "")), Action::Leave);
    assert_eq!(runner.step(Event::Left), Action::Leave);
    assert_eq!(runner.step(Event::Left), Action::Done(Ok(result(0, &[], &[]))));
}

#[test]
fn a_file_that_cannot_be_read_ends_the_run() {
    let mut runner = start("missing.toml", None);
    assert_eq!(
        runner.step(failed("No such file or directory")),
        Action::Done(Err(RunError::Unreadable("No such file or directory".to_string())))
    );
}

#[test]
fn a_host_that_is_nowhere_ends_the_run() {
    let mut runner = start("multitest.toml", None);
    assert_eq!(
        runner.step(Event::Lost("no such directory".to_string())),
        Action::Done(Err(RunError::Directory("no such directory".to_string())))
    );
    let mut runner = start("multitest.toml", None);
    assert_eq!(runner.step(opened("", "")), Action::Leave);
    assert_eq!(runner.step(Event::Lost("what".to_string())), Action::Done(Err(RunError::Unexpected)));
}

#[test]
fn a_broken_file_is_left_before_the_run_ends() {
    let mut runner = start("multitest.toml", None);
    assert_eq!(runner.step(opened("[[tests]]\ncommand = [\"x\"]\n", "dir")), Action::Leave);
    assert_eq!(runner.step(Event::Left), Action::Done(Err(RunError::MissingName)));
}

#[test]
fn a_directory_that_cannot_be_entered_fails_the_run() {
    let mut runner = start("conf/multitest.toml", None);
    assert_eq!(runner.step(opened(MATRIX, "conf")), Action::Enter("conf".to_string()));
    assert_eq!(runner.step(failed("Permission denied")), Action::Leave);
    assert_eq!(
        runner.step(Event::Left),
        Action::Done(Err(RunError::Directory("Permission denied".to_string())))
    );
}

#[test]
fn a_pattern_that_cannot_be_matched_fails_the_run() {
    let mut runner = start("multitest.toml", None);
    assert_eq!(
        runner.step(opened("includes = [\"a[\"]\n", "")),
        Action::Glob("a[".to_string())
    );
    assert_eq!(runner.step(failed("invalid range pattern")), Action::Leave);
    assert_eq!(
        runner.step(Event::Left),
        Action::Done(Err(RunError::Include("invalid range pattern".to_string())))
    );
}

#[test]
fn a_template_that_does_not_compile_fails_the_run_at_its_declaration() {
    let config = "[[tests]]\nname = \"ok\"\ncommand = [\"x\"]\n\
                  [[tests]]\nname = \"bad\"\ncommand = [\"x\", \"{% if %}\"]\n\
                  [[tests]]\nname = \"never\"\ncommand = [\"x\"]\n";
    let mut runner = start("multitest.toml", None);
    assert_eq!(runner.step(opened(config, "")), Action::Continue);
    assert_eq!(runner.step(Event::Resumed), run("ok", &["x"]));
    assert_eq!(runner.step(exited(0)), Action::Leave);
    match runner.step(Event::Left) {
        Action::Done(Err(RunError::Compile { field, .. })) => assert_eq!(field, Field::Argument(1)),
        other => panic!("{:?}", other),
    }
}

#[test]
fn markup_that_is_no_reference_fails_the_run_at_its_declaration() {
    let config = "[[tests]]\nname = \"{{ n | divided_by: 0 }}\"\ncommand = [\"x\"]\n\
                  [tests.variables]\nn = [\"a\"]\n";
    let mut runner = start("multitest.toml", None);
    assert_eq!(runner.step(opened(config, "")), Action::Leave);
    match runner.step(Event::Left) {
        Action::Done(Err(RunError::Compile { field, .. })) => assert_eq!(field, Field::Name),
        other => panic!("{:?}", other),
    }
}

#[test]
fn variables_are_gone_through_in_the_order_of_the_file() {
    let config = "[[tests]]\nname = \"{{b}}-{{a}}\"\ncommand = [\"true\"]\n\
                  [tests.variables]\nb = [\"x\", \"y\"]\na = [\"p\", \"q\"]\n";
    let mut runner = start("multitest.toml", None);
    assert_eq!(runner.step(opened(config, "")), Action::Continue);
    assert_eq!(runner.step(Event::Resumed), run("x-p", &["true"]));
    assert_eq!(runner.step(exited(0)), run("x-q", &["true"]));
    assert_eq!(runner.step(exited(0)), run("y-p", &["true"]));
    assert_eq!(runner.step(exited(0)), run("y-q", &["true"]));
    assert_eq!(runner.step(exited(0)), Action::Leave);
}

#[test]
fn an_error_in_an_included_file_leaves_every_open_scope() {
    let root = "includes = [\"a.toml\", \"b.toml\"]\n[[tests]]\nname = \"root\"\ncommand = [\"r\"]\n";
    let mut runner = start("multitest.toml", None);
    assert_eq!(runner.step(opened(root, "")), Action::Glob("a.toml".to_string()));
    assert_eq!(runner.step(Event::Matched(strings(&["a.toml"]))), Action::Glob("b.toml".to_string()));
    assert_eq!(runner.step(Event::Matched(strings(&["b.toml"]))), Action::Continue);
    assert_eq!(runner.step(Event::Resumed), run("root", &["r"]));
    assert_eq!(runner.step(exited(0)), open("a.toml"));
    assert_eq!(runner.step(opened("includes = [3]\n", "")), Action::Leave);
    assert_eq!(runner.step(Event::Left), Action::Leave);
    assert_eq!(runner.step(Event::Left), Action::Done(Err(RunError::IncludeNotString)));
}

#[test]
fn an_included_file_that_cannot_be_read_leaves_the_outer_scope() {
    let root = "includes = [\"a.toml\"]\n";
    let mut runner = start("multitest.toml", None);
    assert_eq!(runner.step(opened(root, "")), Action::Glob("a.toml".to_string()));
    assert_eq!(runner.step(Event::Matched(strings(&["a.toml"]))), open("a.toml"));
    assert_eq!(runner.step(failed("gone")), Action::Leave);
    assert_eq!(
        runner.step(Event::Left),
        Action::Done(Err(RunError::Unreadable("gone".to_string())))
    );
}

#[test]
fn a_directory_that_cannot_be_restored_fails_the_run() {
    let mut runner = start("multitest.toml", None);
    assert_eq!(runner.step(opened(MATRIX, "")), Action::Continue);
    assert_eq!(runner.step(Event::Resumed), run("t-x", &["echo", "x"]));
    assert_eq!(runner.step(exited(0)), run("t-y", &["echo", "y"]));
    assert_eq!(runner.step(exited(0)), Action::Leave);
    assert_eq!(
        runner.step(failed("cannot go back")),
        Action::Done(Err(RunError::Directory("cannot go back".to_string())))
    );
}

#[test]
fn the_first_error_is_the_error_of_the_run() {
    let mut runner = start("multitest.toml", None);
    assert_eq!(runner.step(opened("tests = [3]\n", "")), Action::Leave);
    assert_eq!(runner.step(failed("cannot go back")), Action::Done(Err(RunError::MissingName)));
}

#[test]
fn an_event_that_was_not_waited_for_fails_the_run() {
    let mut runner = start("multitest.toml", None);
    assert_eq!(runner.step(Event::Entered), Action::Done(Err(RunError::Unexpected)));

    let mut runner = start("multitest.toml", None);
    assert_eq!(runner.step(opened(MATRIX, "")), Action::Continue);
    assert_eq!(runner.step(exited(0)), Action::Leave);
    assert_eq!(runner.step(Event::Left), Action::Done(Err(RunError::Unexpected)));

    let mut runner = start("multitest.toml", None);
    assert_eq!(runner.step(opened(MATRIX, "")), Action::Continue);
    assert_eq!(runner.step(Event::Resumed), run("t-x", &["echo", "x"]));
    assert_eq!(runner.step(failed("what")), Action::Leave);
    assert_eq!(runner.step(Event::Left), Action::Done(Err(RunError::Unexpected)));
}

#[test]
fn a_run_that_is_over_has_nothing_more_to_give() {
    let mut runner = start("multitest.toml", None);
    assert_eq!(runner.step(opened("", "")), Action::Leave);
    assert_eq!(runner.step(Event::Left), Action::Done(Ok(result(0, &[], &[]))));
    assert_eq!(runner.step(Event::Resumed), Action::Done(Err(RunError::Unexpected)));
    assert_eq!(runner.decide(None), Action::Done(Err(RunError::Unexpected)));
}

#[test]
fn decisions_take_the_expansion_they_are_given() {
    let mut runner = start("multitest.toml", None);
    runner.absorb(opened(MATRIX, ""));
    assert!(runner.needs_expansion());
    assert_eq!(
        runner.decide(Some(Ok(vec![plain("p", &["p"]), plain("q", &["q"])]))),
        Action::Continue
    );
    assert!(!runner.needs_expansion());
    assert_eq!(runner.step(Event::Resumed), run("p", &["p"]));
    assert_eq!(runner.step(exited(0)), run("q", &["q"]));
    assert_eq!(runner.step(exited(2)), Action::Leave);
    assert_eq!(runner.step(Event::Left), Action::Done(Ok(result(0, &["p"], &["q"]))));
}

#[test]
fn a_failed_expansion_fails_the_run() {
    let mut runner = start("multitest.toml", None);
    runner.absorb(opened(MATRIX, ""));
    let error = RunError::Render { field: Field::Name, message: "no".to_string() };
    assert_eq!(runner.decide(Some(Err(error))), Action::Leave);
    assert!(!runner.needs_expansion());
    assert_eq!(
        runner.step(Event::Left),
        Action::Done(Err(RunError::Render { field: Field::Name, message: "no".to_string() }))
    );
}

#[test]
fn a_missing_expansion_fails_the_run() {
    let mut runner = start("multitest.toml", None);
    runner.absorb(opened(MATRIX, ""));
    assert_eq!(runner.decide(None), Action::Leave);
    assert_eq!(runner.step(Event::Left), Action::Done(Err(RunError::Unexpected)));
}

#[test]
fn a_decision_without_a_report_fails_the_run() {
    let mut runner = start("multitest.toml", None);
    assert!(!runner.needs_expansion());
    assert_eq!(runner.decide(None), Action::Leave);
    assert_eq!(runner.step(Event::Left), Action::Done(Err(RunError::Unexpected)));
}

#[test]
fn named_file_goes_before_the_one_found() {
    match run_config_root(Some("named.toml".to_string()), Some("found.toml".to_string()), None) {
        Ok((_, action)) => assert_eq!(action, open("named.toml")),
        Err(error) => panic!("{:?}", error),
    }
    match run_config_root(None, Some("up/multitest.toml".to_string()), None) {
        Ok((_, action)) => assert_eq!(action, open("up/multitest.toml")),
        Err(error) => panic!("{:?}", error),
    }
    assert!(matches!(run_config_root(None, None, None), Err(RunError::ConfigNotFound)));
}

#[test]
fn root_run_uses_the_filter() {
    let filter = Some(Regex::new("y").unwrap());
    let (mut runner, _) = run_config_root(Some("multitest.toml".to_string()), None, filter).unwrap();
    assert_eq!(runner.step(opened(MATRIX, "")), Action::Continue);
    assert_eq!(runner.step(Event::Resumed), skip("t-x"));
    assert_eq!(runner.step(Event::Resumed), run("t-y", &["echo", "y"]));
}

#[test]
fn the_nearest_file_that_is_there_is_found() {
    let candidates = |present: &[bool]| -> Vec<(String, bool)> {
        ["/a/b/c/multitest.toml", "/a/b/multitest.toml", "/a/multitest.toml", "/multitest.toml"]
            .iter()
            .zip(present)
            .map(|(path, present)| (path.to_string(), *present))
            .collect()
    };
    assert_eq!(
        find_config_file(&candidates(&[false, true, false, true])),
        Some("/a/b/multitest.toml".to_string())
    );
    assert_eq!(
        find_config_file(&candidates(&[true, true, true, true])),
        Some("/a/b/c/multitest.toml".to_string())
    );
    assert_eq!(
        find_config_file(&candidates(&[false, false, false, true])),
        Some("/multitest.toml".to_string())
    );
    assert_eq!(find_config_file(&candidates(&[false, false, false, false])), None);
    assert_eq!(find_config_file(&vec![]), None);
}

use multitest::test::{join_command_line, Launch, Test};

fn strings(items: &[&str]) -> Vec<String> {
    items.iter().map(|item| item.to_string()).collect()
}

fn pairs(items: &[(&str, &str)]) -> Vec<(String, String)> {
    items.iter().map(|(name, value)| (name.to_string(), value.to_string())).collect()
}

#[test]
fn new_keeps_its_parts() {
    let test = Test::new(
        "build".to_string(),
        strings(&["cargo", "build"]),
        true,
        pairs(&[("A", "1"), ("B", "2")]),
    );
    assert_eq!(test.name, "build");
    assert_eq!(test.command, strings(&["cargo", "build"]));
    assert!(test.clear_env);
    assert_eq!(test.env, pairs(&[("A", "1"), ("B", "2")]));
}

#[test]
fn only_exit_code_zero_passes() {
    let test = Test::new("t".to_string(), strings(&["true"]), false, vec![]);
    assert!(test.run(&Launch::Exited(0)));
    assert!(!test.run(&Launch::Exited(1)));
    assert!(!test.run(&Launch::Exited(-1)));
    assert!(!test.run(&Launch::Exited(255)));
    assert!(!test.run(&Launch::Killed));
    assert!(!test.run(&Launch::Failed("No such file or directory".to_string())));
}

#[test]
fn joined_command_line_has_assignments_first() {
    let line = join_command_line(&pairs(&[("A", "1"), ("B", "x y")]), &strings(&["echo", "a", "b"]));
    assert_eq!(line, "A=1 B=x y echo a b");
}

#[test]
fn joined_command_line_of_one_word() {
    assert_eq!(join_command_line(&vec![], &strings(&["ls"])), "ls");
    assert_eq!(join_command_line(&vec![], &vec![]), "");
    assert_eq!(join_command_line(&pairs(&[("A", "")]), &vec![]), "A= ");
}

#[test]
fn command_line_quotes_what_a_shell_would_split() {
    let test = Test::new(
        "t".to_string(),
        strings(&["echo", "hello world", "plain"]),
        false,
        pairs(&[("GREETING", "it's")]),
    );
    assert_eq!(test.command_line(), "GREETING='it'\\''s' echo 'hello world' plain");
}

#[test]
fn command_line_leaves_safe_words_alone() {
    let test = Test::new("t".to_string(), strings(&["cargo", "test", "--release"]), false, vec![]);
    assert_eq!(test.command_line(), "cargo test --release");
}

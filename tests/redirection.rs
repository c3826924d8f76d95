use shell_engine::redirection::parse_redirection;

fn target(p: &str, append: bool) -> Option<(String, bool)> {
    Some((p.to_string(), append))
}

#[test]
fn stdout_overwrite_clause() {
    let (cmd, out, err) = parse_redirection("echo hello 1> /tmp/out.txt");
    assert_eq!(cmd, "echo hello");
    assert_eq!(out, target("/tmp/out.txt", false));
    assert_eq!(err, None);
}

#[test]
fn each_operator_form() {
    assert_eq!(parse_redirection("ls > a"), ("ls".to_string(), target("a", false), None));
    assert_eq!(parse_redirection("ls >> a"), ("ls".to_string(), target("a", true), None));
    assert_eq!(parse_redirection("ls 1>> a"), ("ls".to_string(), target("a", true), None));
    assert_eq!(parse_redirection("ls 2> e"), ("ls".to_string(), None, target("e", false)));
    assert_eq!(parse_redirection("ls 2>> e"), ("ls".to_string(), None, target("e", true)));
}

#[test]
fn both_slots_filled() {
    let (cmd, out, err) = parse_redirection("cat x > o.txt 2> e.txt");
    assert_eq!(cmd, "cat x");
    assert_eq!(out, target("o.txt", false));
    assert_eq!(err, target("e.txt", false));
}

#[test]
fn path_is_the_next_word_only() {
    let (cmd, out, _) = parse_redirection("echo a > f.txt trailing words");
    assert_eq!(cmd, "echo a");
    assert_eq!(out, target("f.txt", false));
}

#[test]
fn no_operator_leaves_line() {
    assert_eq!(parse_redirection("echo a>b"), ("echo a>b".to_string(), None, None));
    assert_eq!(parse_redirection(""), (String::new(), None, None));
}

#[test]
fn missing_path_is_empty() {
    let (cmd, out, _) = parse_redirection("echo a > ");
    assert_eq!(cmd, "echo a");
    assert_eq!(out, target("", false));
}

#[test]
fn resolving_residual_again_changes_nothing() {
    let (cmd, _, _) = parse_redirection("echo hi 2>> log.txt 1> out.txt");
    assert_eq!(cmd, "echo hi");
    assert_eq!(parse_redirection(&cmd), (cmd.clone(), None, None));
}

#[test]
fn residual_may_hold_lower_operator() {
    let (cmd, out, _) = parse_redirection("a > b 1>> c");
    assert_eq!(cmd, "a > b");
    assert_eq!(out, target("c", true));
    assert_eq!(parse_redirection(&cmd), ("a".to_string(), target("b", false), None));
}

#[test]
fn target_is_the_word_right_after_operator() {
    let (cmd, _, err) = parse_redirection("a 2>  2>  x");
    assert_eq!(cmd, "a");
    assert_eq!(err, target("2>", false));
    let (cmd, out, _) = parse_redirection("a >  > x");
    assert_eq!(cmd, "a");
    assert_eq!(out, target(">", false));
}

#[test]
fn one_clause_per_slot_resolves_once() {
    let (cmd, out, err) = parse_redirection("grep x f >> o.txt 2> e.txt");
    assert_eq!(cmd, "grep x f");
    assert_eq!(out, target("o.txt", true));
    assert_eq!(err, target("e.txt", false));
    assert_eq!(parse_redirection(&cmd), (cmd.clone(), None, None));
    let (cmd, out, err) = parse_redirection("grep x f 2> e.txt >> o.txt");
    assert_eq!(cmd, "grep x f");
    assert_eq!(out, None);
    assert_eq!(err, target("e.txt", false));
}

use shell_engine::builtins::{
    cd_error, cmd_cd, cmd_echo, cmd_history, cmd_type, execute_builtin, execute_type_builtin,
    is_builtin,
};

fn strings(v: &[&str]) -> Vec<String> {
    v.iter().map(|s| s.to_string()).collect()
}

#[test]
fn echo_joins_with_spaces() {
    assert_eq!(cmd_echo(&strings(&["hello", "world"])), "hello world");
    assert_eq!(cmd_echo(&strings(&[])), "");
    assert_eq!(cmd_echo(&strings(&["a b"])), "a b");
}

#[test]
fn type_reports() {
    assert_eq!(cmd_type(&strings(&["cd"]), None), Some("cd is a shell builtin".to_string()));
    assert_eq!(
        cmd_type(&strings(&["nonexistent_cmd_x"]), None),
        Some("nonexistent_cmd_x: not found".to_string())
    );
    assert_eq!(
        execute_type_builtin(&strings(&["ls"]), Some("/bin/ls".to_string())),
        "ls is /bin/ls"
    );
    assert_eq!(cmd_type(&strings(&[]), None), None);
    assert_eq!(execute_type_builtin(&strings(&[]), None), "");
}

#[test]
fn builtin_registry() {
    for name in ["echo", "exit", "type", "pwd", "history", "cd"] {
        assert!(is_builtin(name));
    }
    assert!(!is_builtin("ls"));
    assert!(!is_builtin("ech"));
    assert!(!is_builtin(""));
}

#[test]
fn pipeline_builtin_output() {
    assert_eq!(execute_builtin(&strings(&["echo", "hi", "there"]), "/w", None, &strings(&[])), "hi there");
    assert_eq!(execute_builtin(&strings(&["echo"]), "/w", None, &strings(&[])), "");
    assert_eq!(execute_builtin(&strings(&["pwd"]), "/w", None, &strings(&[])), "/w");
    assert_eq!(execute_builtin(&strings(&["type", "echo"]), "/w", None, &strings(&[])), "echo is a shell builtin");
    assert_eq!(execute_builtin(&strings(&["cd", "/"]), "/w", None, &strings(&[])), "");
}

#[test]
fn cd_expands_leading_tilde() {
    assert_eq!(cmd_cd(&strings(&["~/src"]), "/home/u"), Some("/home/u/src".to_string()));
    assert_eq!(cmd_cd(&strings(&["/tmp"]), "/home/u"), Some("/tmp".to_string()));
    assert_eq!(cmd_cd(&strings(&["a~b"]), "/home/u"), Some("a~b".to_string()));
    assert_eq!(cmd_cd(&strings(&[]), "/home/u"), None);
    assert_eq!(cd_error("/nope"), "cd: /nope: No such file or directory");
}

#[test]
fn history_last_two() {
    let log = strings(&["ls", "pwd", "cd /"]);
    assert_eq!(cmd_history(&log, &strings(&["2"])), strings(&["    2  pwd", "    3  cd /"]));
}

#[test]
fn history_all_and_bad_limits() {
    let log = strings(&["ls", "pwd", "cd /"]);
    let all = strings(&["    1  ls", "    2  pwd", "    3  cd /"]);
    assert_eq!(cmd_history(&log, &strings(&[])), all);
    assert_eq!(cmd_history(&log, &strings(&["10"])), all);
    assert_eq!(cmd_history(&log, &strings(&["x"])), all);
    assert_eq!(cmd_history(&log, &strings(&["+1"])), strings(&["    3  cd /"]));
    assert_eq!(cmd_history(&log, &strings(&["0"])), strings(&[]));
    assert_eq!(cmd_history(&log, &strings(&["-1"])), all);
    assert_eq!(cmd_history(&log, &strings(&["99999999999999999999999"])), all);
}

#[test]
fn history_two_digit_indices() {
    let log: Vec<String> = (1..=12).map(|i| format!("c{}", i)).collect();
    assert_eq!(cmd_history(&log, &strings(&["1"])), strings(&["    12  c12"]));
}

#[test]
fn history_in_pipeline_stage() {
    let log = strings(&["ls", "pwd", "cd /"]);
    assert_eq!(
        execute_builtin(&strings(&["history", "2"]), "/w", None, &log),
        "    2  pwd\n    3  cd /"
    );
    assert_eq!(execute_builtin(&strings(&["history"]), "/w", None, &strings(&[])), "");
}

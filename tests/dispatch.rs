use shell_engine::dispatch::{plan_command, plan_line, LinePlan};

fn argv(v: &[&str]) -> Vec<String> {
    v.iter().map(|s| s.to_string()).collect()
}

#[test]
fn echo_to_file() {
    assert_eq!(
        plan_line("echo hello 1> /tmp/out.txt"),
        LinePlan::Builtin {
            argv: argv(&["echo", "hello"]),
            stdout: Some(("/tmp/out.txt".to_string(), false)),
            stderr: None,
        }
    );
}

#[test]
fn each_path() {
    assert_eq!(plan_line("   "), LinePlan::Blank);
    assert_eq!(
        plan_line("echo hi | cat"),
        LinePlan::Pipeline { stages: vec![argv(&["echo", "hi"]), argv(&["cat"])] }
    );
    assert_eq!(
        plan_line("  ls -l 2> err.txt "),
        LinePlan::External {
            argv: argv(&["ls", "-l"]),
            stdout: None,
            stderr: Some(("err.txt".to_string(), false)),
        }
    );
    assert_eq!(plan_line("echo \"open"), LinePlan::ParseError);
}

#[test]
fn exit_and_pwd_forms() {
    assert_eq!(
        plan_line("exit 0"),
        LinePlan::Builtin { argv: argv(&["exit", "0"]), stdout: None, stderr: None }
    );
    assert_eq!(
        plan_line("exit 1"),
        LinePlan::External { argv: argv(&["exit", "1"]), stdout: None, stderr: None }
    );
    assert_eq!(
        plan_line("pwd x"),
        LinePlan::External { argv: argv(&["pwd", "x"]), stdout: None, stderr: None }
    );
    assert_eq!(plan_line("pwd"), LinePlan::Builtin { argv: argv(&["pwd"]), stdout: None, stderr: None });
}

#[test]
fn single_command_from_words() {
    assert_eq!(plan_command(None, None, None), LinePlan::ParseError);
    assert_eq!(plan_command(Some(vec![]), None, None), LinePlan::ParseError);
    let out = Some(("o".to_string(), true));
    assert_eq!(
        plan_command(Some(argv(&["history", "2"])), out.clone(), None),
        LinePlan::Builtin { argv: argv(&["history", "2"]), stdout: out.clone(), stderr: None }
    );
    assert_eq!(
        plan_command(Some(argv(&["grep", "x"])), None, out.clone()),
        LinePlan::External { argv: argv(&["grep", "x"]), stdout: None, stderr: out }
    );
}

#[test]
fn comment_only_line_is_parse_error() {
    assert_eq!(plan_line("# note"), LinePlan::ParseError);
}

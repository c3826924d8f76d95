use shell_engine::pipeline::{parse_pipeline, plan_pipeline, stdin_payload, Stage, StageInput, StageOutput};

fn argv(v: &[&str]) -> Vec<String> {
    v.iter().map(|s| s.to_string()).collect()
}

#[test]
fn echo_into_cat() {
    let stages = parse_pipeline("echo hi | cat").unwrap();
    assert_eq!(stages, vec![argv(&["echo", "hi"]), argv(&["cat"])]);
    assert_eq!(
        plan_pipeline(&stages),
        vec![
            Stage::Builtin { last: false },
            Stage::External { input: StageInput::Buffered, output: StageOutput::Terminal },
        ]
    );
    assert_eq!(stdin_payload("hi"), "hi\n");
}

#[test]
fn external_chain() {
    let stages = parse_pipeline("cat f | head -1 | wc").unwrap();
    assert_eq!(
        plan_pipeline(&stages),
        vec![
            Stage::External { input: StageInput::Terminal, output: StageOutput::Pipe },
            Stage::External { input: StageInput::PreviousStage, output: StageOutput::Pipe },
            Stage::External { input: StageInput::PreviousStage, output: StageOutput::Terminal },
        ]
    );
}

#[test]
fn builtin_last_prints() {
    let stages = parse_pipeline("ls | echo x").unwrap();
    assert_eq!(
        plan_pipeline(&stages),
        vec![
            Stage::External { input: StageInput::Terminal, output: StageOutput::Pipe },
            Stage::Builtin { last: true },
        ]
    );
}

#[test]
fn quoting_is_honoured() {
    let stages = parse_pipeline("echo 'a b' | grep \"a b\"").unwrap();
    assert_eq!(stages, vec![argv(&["echo", "a b"]), argv(&["grep", "a b"])]);
}

#[test]
fn no_delimiter_or_bad_stage() {
    assert_eq!(parse_pipeline("echo a|b"), None);
    assert_eq!(parse_pipeline("echo 'a | cat"), None);
    assert_eq!(parse_pipeline("echo a |  | cat"), None);
}

#[test]
fn payload_keeps_existing_newline() {
    assert_eq!(stdin_payload("x\n"), "x\n");
    assert_eq!(stdin_payload(""), "\n");
}

use shell_engine::history::{ExitFlush, History};

#[test]
fn append_new_after_write_all_is_empty() {
    let mut h = History::new();
    h.append("ls");
    h.append("pwd");
    assert_eq!(h.write_all_text(), "ls\npwd\n");
    assert_eq!(h.append_new(), Some("ls\npwd\n".to_string()));
    h.mark_flushed();
    assert_eq!(h.append_new(), None);
    h.append("cd /");
    assert_eq!(h.append_new(), Some("cd /\n".to_string()));
}

#[test]
fn load_trims_and_skips_blank_lines() {
    let mut h = History::new();
    h.append("first");
    h.load("  a  \n\n b\r\n   \n");
    assert_eq!(h.entries(), vec!["first".to_string(), "a".to_string(), "b".to_string()]);
    assert_eq!(h.len(), 3);
    assert_eq!(h.append_new(), None);
}

#[test]
fn exit_flush_choices() {
    let mut h = History::new();
    h.load("old\n");
    h.append("new");
    assert_eq!(h.exit_flush(""), ExitFlush::WriteAll { text: "old\nnew\n".to_string() });
    assert_eq!(h.exit_flush("old\n"), ExitFlush::Append { text: "new\n".to_string() });
    h.mark_flushed();
    assert_eq!(h.exit_flush("old\n"), ExitFlush::Nothing);
}

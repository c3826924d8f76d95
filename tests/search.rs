use shell_engine::search::{candidate_paths, command_not_found, join_path, search_dirs};

#[test]
fn joins_like_path_join() {
    assert_eq!(join_path("/usr/bin", "ls"), "/usr/bin/ls");
    assert_eq!(join_path("/usr/bin/", "ls"), "/usr/bin/ls");
    assert_eq!(join_path("", "ls"), "ls");
    assert_eq!(join_path("/usr/bin", "/bin/ls"), "/bin/ls");
}

#[test]
fn search_path_fields() {
    assert_eq!(search_dirs("/a::/b"), vec!["/a".to_string(), String::new(), "/b".to_string()]);
    assert_eq!(search_dirs(""), vec![String::new()]);
    assert_eq!(
        candidate_paths("/a:/b", "x"),
        vec!["/a/x".to_string(), "/b/x".to_string()]
    );
    assert_eq!(command_not_found("foo"), "foo: command not found");
}

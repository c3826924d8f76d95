use shell_engine::completer::{find_longest_common_prefix, matching_names, Completion, MyCompleter};

fn strings(v: &[&str]) -> Vec<String> {
    v.iter().map(|s| s.to_string()).collect()
}

#[test]
fn common_prefix_then_bell_then_listing() {
    let names = strings(&["foobaz", "ls", "foobar"]);
    let mut c = MyCompleter::new();
    assert_eq!(
        c.complete("foo", 3, &names),
        Completion::Candidates { start: 0, items: strings(&["fooba"]) }
    );
    assert_eq!(c.complete("fooba", 5, &names), Completion::Bell);
    assert_eq!(
        c.complete("fooba", 5, &names),
        Completion::Listing { text: "foobar  foobaz".to_string() }
    );
}

#[test]
fn repeat_counter() {
    let mut c = MyCompleter::new();
    assert_eq!(c.register("ab", 2), 1);
    assert_eq!(c.register("ab", 2), 2);
    assert_eq!(c.register("ab", 2), 3);
    assert_eq!(c.register("ab", 1), 1);
    assert_eq!(c.register("abc", 1), 1);
    assert_eq!(c.register("abc", 1), 2);
}

#[test]
fn builtin_and_single_match() {
    let names = strings(&["echoer", "ls"]);
    let mut c = MyCompleter::new();
    assert_eq!(
        c.complete("ech", 3, &names),
        Completion::Candidates { start: 0, items: strings(&["echo ", "echoer "]) }
    );
}

#[test]
fn argument_position_skips_builtins() {
    let names = strings(&["cat", "cargo", "echo2"]);
    let mut c = MyCompleter::new();
    assert_eq!(
        c.complete("echo ec", 7, &names),
        Completion::Candidates { start: 5, items: strings(&["echo2 "]) }
    );
}

#[test]
fn argument_position_bell() {
    let names = strings(&["cat", "cargo"]);
    let mut c = MyCompleter::new();
    assert_eq!(c.complete("echo ca", 7, &names), Completion::Bell);
}

#[test]
fn no_match_gives_nothing() {
    let mut c = MyCompleter::new();
    assert_eq!(
        c.complete("zzz", 3, &strings(&["ls"])),
        Completion::Candidates { start: 0, items: vec![] }
    );
}

#[test]
fn matches_are_sorted_and_unique() {
    let names = strings(&["b", "a2", "a1", "a2", "c"]);
    assert_eq!(matching_names(&names, "a"), strings(&["a1", "a2"]));
    assert_eq!(matching_names(&names, ""), strings(&["a1", "a2", "b", "c"]));
}

#[test]
fn longest_common_prefix_cases() {
    assert_eq!(find_longest_common_prefix(&strings(&[])), "");
    assert_eq!(find_longest_common_prefix(&strings(&["abc"])), "abc");
    assert_eq!(find_longest_common_prefix(&strings(&["abc", "abd", "ab"])), "ab");
    assert_eq!(find_longest_common_prefix(&strings(&["x", "y"])), "");
}

#[test]
fn repeat_counter_remembers_only_latest_pair() {
    let mut c = MyCompleter::new();
    assert_eq!(c.register("a", 1), 1);
    assert_eq!(c.register("a", 1), 2);
    assert_eq!(c.register("a", 1), 3);
    assert_eq!(c.register("b", 1), 1);
    assert_eq!(c.register("a", 1), 1);
}

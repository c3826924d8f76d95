use vstd::prelude::*;
use crate::text::{
    decimal, join, opt_view, join_from, parse_usize, parse_usize_spec, push_all, push_decimal, text_eq,
    views,
};

verus! {

/// The names of the shell's builtin commands.
pub open spec fn builtin_names() -> Seq<Seq<char>> {
    seq![
        seq!['e', 'c', 'h', 'o'],
        seq!['e', 'x', 'i', 't'],
        seq!['t', 'y', 'p', 'e'],
        seq!['p', 'w', 'd'],
        seq!['h', 'i', 's', 't', 'o', 'r', 'y'],
        seq!['c', 'd'],
    ]
}

/// The builtin names, in registry order.
pub fn builtin_name_list() -> (r: Vec<String>)
    ensures
        views(r@) == builtin_names(),
{
    let r = vec![
        "echo".to_owned(),
        "exit".to_owned(),
        "type".to_owned(),
        "pwd".to_owned(),
        "history".to_owned(),
        "cd".to_owned(),
    ];
    proof {
        reveal_strlit("echo");
        reveal_strlit("exit");
        reveal_strlit("type");
        reveal_strlit("pwd");
        reveal_strlit("history");
        reveal_strlit("cd");
        assert("echo"@ =~= seq!['e', 'c', 'h', 'o']);
        assert("exit"@ =~= seq!['e', 'x', 'i', 't']);
        assert("type"@ =~= seq!['t', 'y', 'p', 'e']);
        assert("pwd"@ =~= seq!['p', 'w', 'd']);
        assert("history"@ =~= seq!['h', 'i', 's', 't', 'o', 'r', 'y']);
        assert("cd"@ =~= seq!['c', 'd']);
        assert(views(r@) =~= builtin_names());
    }
    r
}

/// Whether `name` is one of the builtin commands.
pub fn is_builtin(name: &str) -> (r: bool)
    ensures
        r == builtin_names().contains(name@),
{
    let names = builtin_name_list();
    let mut i: usize = 0;
    while i < names.len()
        invariant
            views(names@) == builtin_names(),
            i <= names@.len(),
            forall|k: int| 0 <= k < i ==> builtin_names()[k] != name@,
        decreases names@.len() - i,
    {
        assert(views(names@)[i as int] == names@[i as int]@);
        if text_eq(names[i].as_str(), name) {
            assert(builtin_names()[i as int] == name@);
            return true;
        }
        i = i + 1;
    }
    false
}

/// The output of `echo`: its arguments joined by single spaces.
pub fn cmd_echo(input: &Vec<String>) -> (r: String)
    ensures
        r@ == join(views(input@), seq![' ']),
{
    proof {
        reveal_strlit(" ");
        assert(" "@ =~= seq![' ']);
        assert(views(input@).subrange(0, input@.len() as int) =~= views(input@));
    }
    join_from(input, 0, " ")
}

/// What `type` reports for `name`, given the first match on the search path, if any.
pub open spec fn type_report(name: Seq<char>, found: Option<Seq<char>>) -> Seq<char> {
    if builtin_names().contains(name) {
        name + " is a shell builtin"@
    } else {
        match found {
            Some(p) => name + " is "@ + p,
            None => name + ": not found"@,
        }
    }
}

/// The report of `type` on its first argument; `found` is the first search-path entry
/// that holds a file of that name. Empty when there is no argument.
pub fn execute_type_builtin(args: &Vec<String>, found: Option<String>) -> (r: String)
    ensures
        args@.len() == 0 ==> r@ == Seq::<char>::empty(),
        args@.len() > 0 ==> r@ == type_report(args@[0]@, opt_view(found)),
{
    if args.len() == 0 {
        return String::new();
    }
    let name = args[0].as_str();
    let mut r = String::new();
    push_all(&mut r, name);
    if is_builtin(name) {
        push_all(&mut r, " is a shell builtin");
    } else {
        match found {
            Some(p) => {
                push_all(&mut r, " is ");
                push_all(&mut r, p.as_str());
            },
            None => {
                push_all(&mut r, ": not found");
            },
        }
    }
    r
}

/// `type` as a command: nothing to print without an argument, else its report.
pub fn cmd_type(args: &Vec<String>, found: Option<String>) -> (r: Option<String>)
    ensures
        args@.len() == 0 <==> r is None,
        r matches Some(t) ==> t@ == type_report(args@[0]@, opt_view(found)),
{
    if args.len() == 0 {
        return None;
    }
    Some(execute_type_builtin(args, found))
}

/// The text a builtin stage of a pipeline produces: `echo` and `type` as above, `pwd`
/// the working directory `cwd`, `history` its listing of `log` (lines joined by
/// newlines), the other builtins nothing.
pub open spec fn builtin_output(
    cmd: Seq<Seq<char>>,
    cwd: Seq<char>,
    found: Option<Seq<char>>,
    log: Seq<Seq<char>>,
) -> Seq<char> {
    let name = cmd[0];
    if name == "echo"@ {
        if cmd.len() > 1 {
            join(cmd.subrange(1, cmd.len() as int), seq![' '])
        } else {
            seq![]
        }
    } else if name == "pwd"@ {
        cwd
    } else if name == "type"@ {
        if cmd.len() > 1 {
            type_report(cmd[1], found)
        } else {
            seq![]
        }
    } else if name == "history"@ {
        join(history_listing(log, cmd.subrange(1, cmd.len() as int)), seq!['\n'])
    } else {
        seq![]
    }
}

/// Runs a builtin for a pipeline stage and returns its text; `found` is the search-path
/// match for the argument of `type`, `history_entries` the log that `history` lists.
pub fn execute_builtin(
    cmd: &Vec<String>,
    cwd: &str,
    found: Option<String>,
    history_entries: &Vec<String>,
) -> (r: String)
    requires
        cmd@.len() >= 1,
        history_entries@.len() < usize::MAX,
    ensures
        r@ == builtin_output(views(cmd@), cwd@, opt_view(found), views(history_entries@)),
{
    let name = cmd[0].as_str();
    assert(views(cmd@)[0] == cmd@[0]@);
    proof {
        reveal_strlit(" ");
        assert(" "@ =~= seq![' ']);
    }
    if text_eq(name, "echo") {
        if cmd.len() > 1 {
            join_from(cmd, 1, " ")
        } else {
            String::new()
        }
    } else if text_eq(name, "pwd") {
        cwd.to_owned()
    } else if text_eq(name, "type") {
        if cmd.len() > 1 {
            let mut args: Vec<String> = Vec::new();
            args.push(cmd[1].clone());
            assert(views(cmd@)[1] == cmd@[1]@);
            execute_type_builtin(&args, found)
        } else {
            String::new()
        }
    } else if text_eq(name, "history") {
        let mut args: Vec<String> = Vec::new();
        let mut i: usize = 1;
        while i < cmd.len()
            invariant
                1 <= i <= cmd@.len(),
                views(args@) == views(cmd@).subrange(1, i as int),
            decreases cmd@.len() - i,
        {
            let ghost prev = args@;
            args.push(cmd[i].clone());
            assert(views(args@) =~= views(prev).push(cmd@[i as int]@));
            assert(views(args@) =~= views(cmd@).subrange(1, i + 1));
            i = i + 1;
        }
        let lines = cmd_history(history_entries, &args);
        proof {
            reveal_strlit("\n");
            assert("\n"@ =~= seq!['\n']);
            assert(views(lines@).subrange(0, lines@.len() as int) =~= views(lines@));
        }
        join_from(&lines, 0, "\n")
    } else {
        String::new()
    }
}

/// The directory `cd` changes to: its first argument, with a leading `~` replaced by
/// `home`. Nothing when there is no argument.
pub open spec fn cd_path(args: Seq<Seq<char>>, home: Seq<char>) -> Option<Seq<char>> {
    if args.len() == 0 {
        None
    } else {
        let p = args[0];
        if p.len() > 0 && p[0] == '~' {
            Some(home + p.drop_first())
        } else {
            Some(p)
        }
    }
}

pub fn cmd_cd(args: &Vec<String>, home: &str) -> (r: Option<String>)
    ensures
        opt_view(r) == cd_path(views(args@), home@),
{
    if args.len() == 0 {
        return None;
    }
    let p = crate::text::chars_of(args[0].as_str());
    assert(views(args@)[0] == args@[0]@);
    if p.len() > 0 && p[0] == '~' {
        let mut r = home.to_owned();
        let n = p.len();
        let rest = crate::text::string_of(&p, 1, n);
        push_all(&mut r, rest.as_str());
        assert(p@.subrange(1, n as int) =~= p@.drop_first());
        Some(r)
    } else {
        Some(args[0].clone())
    }
}

/// The message printed when `cd` cannot enter `path`.
pub fn cd_error(path: &str) -> (r: String)
    ensures
        r@ == "cd: "@ + path@ + ": No such file or directory"@,
{
    let mut r = String::new();
    push_all(&mut r, "cd: ");
    push_all(&mut r, path);
    push_all(&mut r, ": No such file or directory");
    r
}

/// How many leading entries of a log of `len` entries `history` skips for `args`.
pub open spec fn history_skip(len: nat, args: Seq<Seq<char>>) -> nat {
    if args.len() == 0 {
        0
    } else {
        match parse_usize_spec(args[0]) {
            Some(n) => if n >= len {
                0
            } else {
                (len - n) as nat
            },
            None => 0,
        }
    }
}

/// One line of the `history` listing: the 1-based index, two spaces, the entry.
pub open spec fn history_line(index: nat, entry: Seq<char>) -> Seq<char> {
    "    "@ + decimal(index) + "  "@ + entry
}

/// The listing of `history` over the log `entries` with arguments `args`.
pub open spec fn history_listing(entries: Seq<Seq<char>>, args: Seq<Seq<char>>) -> Seq<Seq<char>> {
    let skip = history_skip(entries.len(), args);
    Seq::new(
        (entries.len() - skip) as nat,
        |k: int| history_line((skip + k + 1) as nat, entries[skip + k]),
    )
}

/// The lines `history` prints for the log `entries` and arguments `args`: all entries,
/// or only the last N when the first argument parses as N, each with its absolute index.
pub fn cmd_history(history_entries: &Vec<String>, args: &Vec<String>) -> (r: Vec<String>)
    requires
        history_entries@.len() < usize::MAX,
    ensures
        views(r@) == history_listing(views(history_entries@), views(args@)),
        ({
            let skip = history_skip(history_entries@.len(), views(args@));
            &&& r@.len() == history_entries@.len() - skip
            &&& forall|k: int|
                0 <= k < r@.len() ==> (#[trigger] r@[k])@ == history_line(
                    (skip + k + 1) as nat,
                    history_entries@[skip + k]@,
                )
        }),
{
    let len = history_entries.len();
    let mut skip: usize = 0;
    if args.len() > 0 {
        assert(views(args@)[0] == args@[0]@);
        match parse_usize(args[0].as_str()) {
            Some(n) => {
                if n < len {
                    skip = len - n;
                }
            },
            None => {},
        }
    }
    let mut r: Vec<String> = Vec::new();
    let mut i: usize = skip;
    while i < len
        invariant
            len == history_entries@.len() < usize::MAX,
            skip == history_skip(len as nat, views(args@)),
            skip <= i <= len,
            r@.len() == i - skip,
            forall|k: int|
                0 <= k < r@.len() ==> (#[trigger] r@[k])@ == history_line(
                    (skip + k + 1) as nat,
                    history_entries@[skip + k]@,
                ),
        decreases len - i,
    {
        let mut line = String::new();
        push_all(&mut line, "    ");
        push_decimal(&mut line, i + 1);
        push_all(&mut line, "  ");
        push_all(&mut line, history_entries[i].as_str());
        r.push(line);
        i = i + 1;
    }
    assert(views(r@) =~= history_listing(views(history_entries@), views(args@)));
    r
}

} // verus!

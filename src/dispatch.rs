use vstd::prelude::*;
use crate::pipeline::{argvs, parse_pipeline, segment, shell_words, shlex_words};
use crate::redirection::{parse_redirection, resolve, target_view};
use crate::text::{chars_of, string_of, text_eq, trim, trim_chars, views};

verus! {

/// Which way a line is handled.
#[derive(Debug, PartialEq, Eq)]
pub enum LinePath {
    Blank,
    Builtin,
    External,
    Pipeline,
    ParseError,
}

/// Whether a word list is run by the shell itself: `echo`, `type`, `cd` and `history`
/// with any arguments, `pwd` alone, and `exit 0`.
pub open spec fn runs_builtin(w: Seq<Seq<char>>) -> bool {
    let name = w[0];
    ||| name == "echo"@
    ||| name == "type"@
    ||| name == "cd"@
    ||| name == "history"@
    ||| (name == "pwd"@ && w.len() == 1)
    ||| (name == "exit"@ && w.len() == 2 && w[1] == "0"@)
}

/// The way an input line is handled.
pub open spec fn path_of(line: Seq<char>) -> LinePath {
    let t = trim(line);
    if t.len() == 0 {
        LinePath::Blank
    } else {
        let residual = resolve(t).0;
        if segment(residual) is Some {
            LinePath::Pipeline
        } else {
            match shlex_words(residual) {
                Some(w) => if w.len() == 0 {
                    LinePath::ParseError
                } else if runs_builtin(w) {
                    LinePath::Builtin
                } else {
                    LinePath::External
                },
                None => LinePath::ParseError,
            }
        }
    }
}

/// What to do with one input line.
#[derive(Debug, PartialEq, Eq)]
pub enum LinePlan {
    /// Nothing: the line is blank.
    Blank,
    /// Run the stages as a pipeline.
    Pipeline { stages: Vec<Vec<String>> },
    /// Run a builtin with the line's redirections.
    Builtin {
        argv: Vec<String>,
        stdout: Option<(String, bool)>,
        stderr: Option<(String, bool)>,
    },
    /// Run an external program with the line's redirections.
    External {
        argv: Vec<String>,
        stdout: Option<(String, bool)>,
        stderr: Option<(String, bool)>,
    },
    /// The command text cannot be split into words.
    ParseError,
}

pub open spec fn plan_path(p: LinePlan) -> LinePath {
    match p {
        LinePlan::Blank => LinePath::Blank,
        LinePlan::Pipeline { .. } => LinePath::Pipeline,
        LinePlan::Builtin { .. } => LinePath::Builtin,
        LinePlan::External { .. } => LinePath::External,
        LinePlan::ParseError => LinePath::ParseError,
    }
}

/// The command text a line leaves once trimmed and stripped of redirections.
pub open spec fn residual_of(line: Seq<char>) -> Seq<char> {
    resolve(trim(line)).0
}

fn runs_builtin_exec(w: &Vec<String>) -> (r: bool)
    requires
        w@.len() > 0,
    ensures
        r == runs_builtin(views(w@)),
{
    let name = w[0].as_str();
    assert(views(w@)[0] == w@[0]@);
    proof {
        reveal_strlit("echo");
        reveal_strlit("type");
        reveal_strlit("cd");
        reveal_strlit("history");
        reveal_strlit("pwd");
        reveal_strlit("exit");
    }
    if text_eq(name, "echo") || text_eq(name, "type") || text_eq(name, "cd") || text_eq(
        name,
        "history",
    ) {
        return true;
    }
    if text_eq(name, "pwd") {
        return w.len() == 1;
    }
    if text_eq(name, "exit") && w.len() == 2 {
        assert(views(w@)[1] == w@[1]@);
        return text_eq(w[1].as_str(), "0");
    }
    false
}

/// Decides how an input line runs: blank lines do nothing; otherwise redirections are
/// stripped, a text with ` | ` stages runs as a pipeline, and a single command runs as a
/// builtin or an external program, or is reported when it cannot be split into words.
pub fn plan_line(line: &str) -> (r: LinePlan)
    ensures
        plan_path(r) == path_of(line@),
        r matches LinePlan::Pipeline { stages } ==> segment(residual_of(line@)) == Some(
            argvs(stages@),
        ),
        r matches LinePlan::Builtin { argv, stdout, stderr } ==> shlex_words(residual_of(line@))
            == Some(views(argv@)) && target_view(stdout) == resolve(trim(line@)).1
            && target_view(stderr) == resolve(trim(line@)).2,
        r matches LinePlan::External { argv, stdout, stderr } ==> shlex_words(residual_of(line@))
            == Some(views(argv@)) && target_view(stdout) == resolve(trim(line@)).1
            && target_view(stderr) == resolve(trim(line@)).2,
{
    let c = chars_of(line);
    let t = trim_chars(&c);
    if t.len() == 0 {
        return LinePlan::Blank;
    }
    let n = t.len();
    let ts = string_of(&t, 0, n);
    assert(t@.subrange(0, n as int) =~= t@);
    let (residual, stdout, stderr) = parse_redirection(ts.as_str());
    match parse_pipeline(residual.as_str()) {
        Some(stages) => {
            return LinePlan::Pipeline { stages };
        },
        None => {},
    }
    plan_command(shell_words(residual.as_str()), stdout, stderr)
}

/// The plan for a single command from the words its text split into (nothing when the
/// split failed) and its redirections.
pub open spec fn command_plan_is(
    r: LinePlan,
    words: Option<Seq<Seq<char>>>,
    stdout: Option<(Seq<char>, bool)>,
    stderr: Option<(Seq<char>, bool)>,
) -> bool {
    match words {
        Some(w) => if w.len() == 0 {
            r is ParseError
        } else if runs_builtin(w) {
            r matches LinePlan::Builtin { argv, stdout: o, stderr: e } && views(argv@) == w
                && target_view(o) == stdout && target_view(e) == stderr
        } else {
            r matches LinePlan::External { argv, stdout: o, stderr: e } && views(argv@) == w
                && target_view(o) == stdout && target_view(e) == stderr
        },
        None => r is ParseError,
    }
}

pub open spec fn words_view(w: Option<Vec<String>>) -> Option<Seq<Seq<char>>> {
    match w {
        Some(v) => Some(views(v@)),
        None => None,
    }
}

/// Classifies a single command once split into words: a failed or empty split is a
/// parse error, otherwise it runs as a builtin or as an external program.
pub fn plan_command(
    words: Option<Vec<String>>,
    stdout: Option<(String, bool)>,
    stderr: Option<(String, bool)>,
) -> (r: LinePlan)
    ensures
        command_plan_is(r, words_view(words), target_view(stdout), target_view(stderr)),
{
    match words {
        Some(argv) => {
            if argv.len() == 0 {
                LinePlan::ParseError
            } else if runs_builtin_exec(&argv) {
                LinePlan::Builtin { argv, stdout, stderr }
            } else {
                LinePlan::External { argv, stdout, stderr }
            }
        },
        None => LinePlan::ParseError,
    }
}

/// Every non-blank line takes exactly one of the builtin, external, pipeline and
/// parse-error paths.
pub proof fn one_path_per_line(line: Seq<char>)
    requires
        trim(line).len() > 0,
    ensures
        (path_of(line) is Builtin) as int + (path_of(line) is External) as int + (path_of(
            line,
        ) is Pipeline) as int + (path_of(line) is ParseError) as int == 1,
{
}

} // verus!

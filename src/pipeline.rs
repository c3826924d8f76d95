use vstd::prelude::*;
use crate::builtins::{builtin_names, is_builtin};
use crate::text::{chars_of, find_chars, find_from, string_of, sub_chars, trim, trim_chars, views};

verus! {

/// The words that shell-style splitting makes of `s` (quotes and escapes honoured), or
/// nothing when the quoting is unbalanced.
pub uninterp spec fn shlex_words(s: Seq<char>) -> Option<Seq<Seq<char>>>;

/// Relies on shlex::split: it returns the words of the text as the shell would split
/// them, or `None` on a quoting error; the result depends on the text alone.
#[verifier::external_body]
pub(crate) fn shell_words(s: &str) -> (r: Option<Vec<String>>)
    ensures
        match shlex_words(s@) {
            Some(w) => r matches Some(v) && views(v@) == w,
            None => r is None,
        },
{
    shlex::split(s)
}

/// The pipe delimiter, a bar between single spaces.
pub open spec fn pipe_sep() -> Seq<char> {
    seq![' ', '|', ' ']
}

/// The pieces of `s` from `i` on between occurrences of `p`, as `str::split` yields them.
pub open spec fn pieces_from(s: Seq<char>, p: Seq<char>, i: int) -> Seq<Seq<char>>
    decreases s.len() + 1 - i,
{
    match find_from(s, p, i) {
        Some(k) => if i <= k && p.len() > 0 && k + p.len() <= s.len() {
            seq![s.subrange(i, k)] + pieces_from(s, p, k + p.len())
        } else {
            seq![]
        },
        None => if 0 <= i <= s.len() {
            seq![s.subrange(i, s.len() as int)]
        } else {
            seq![]
        },
    }
}

/// The words of each piece, trimmed; nothing if a piece fails to split or has no word.
pub open spec fn split_stages(parts: Seq<Seq<char>>) -> Option<Seq<Seq<Seq<char>>>>
    decreases parts.len(),
{
    if parts.len() == 0 {
        Some(seq![])
    } else {
        match split_stages(parts.drop_last()) {
            Some(done) => match shlex_words(trim(parts.last())) {
                Some(w) => if w.len() > 0 {
                    Some(done.push(w))
                } else {
                    None
                },
                None => None,
            },
            None => None,
        }
    }
}

/// The pipeline a residual command text describes: present only when it holds the
/// delimiter and every stage splits into at least one word.
pub open spec fn segment(s: Seq<char>) -> Option<Seq<Seq<Seq<char>>>> {
    if find_from(s, pipe_sep(), 0) is None {
        None
    } else {
        split_stages(pieces_from(s, pipe_sep(), 0))
    }
}

/// The views of a vector of argument vectors.
pub open spec fn argvs(v: Seq<Vec<String>>) -> Seq<Seq<Seq<char>>> {
    v.map_values(|c: Vec<String>| views(c@))
}

/// Splits a command text on ` | ` into stages, each split into words.
pub fn parse_pipeline(command_str: &str) -> (r: Option<Vec<Vec<String>>>)
    ensures
        match segment(command_str@) {
            Some(st) => r matches Some(v) && argvs(v@) == st,
            None => r is None,
        },
{
    let s = chars_of(command_str);
    let sep = chars_of(" | ");
    proof {
        reveal_strlit(" | ");
        assert(sep@ =~= pipe_sep());
        assert(sep@.len() == 3);
    }
    if find_chars(&s, &sep, 0).is_none() {
        return None;
    }
    let mut stages: Vec<Vec<String>> = Vec::new();
    let mut i: usize = 0;
    let n = s.len();
    let ghost mut parts: Seq<Seq<char>> = seq![];
    assert(parts + pieces_from(s@, sep@, 0) =~= pieces_from(s@, sep@, 0));
    loop
        invariant
            s@ == command_str@,
            sep@ == pipe_sep(),
            sep@.len() == 3,
            find_from(s@, sep@, 0) is Some,
            n == s@.len(),
            i <= s@.len(),
            parts + pieces_from(s@, sep@, i as int) == pieces_from(s@, sep@, 0),
            split_stages(parts) == Some(argvs(stages@)),
        decreases s@.len() + 1 - i,
    {
        proof {
            crate::text::lemma_find_from(s@, sep@, i as int);
        }
        let (end, next) = match find_chars(&s, &sep, i) {
            Some(k) => (k, Some(k + 3)),
            None => (n, None),
        };
        let ghost rest = if next is Some {
            pieces_from(s@, sep@, end + 3)
        } else {
            seq![]
        };
        assert(pieces_from(s@, sep@, i as int) =~= seq![s@.subrange(i as int, end as int)] + rest);
        assert(parts.push(s@.subrange(i as int, end as int)) + rest =~= pieces_from(s@, sep@, 0));
        let piece = sub_chars(&s, i, end);
        let t = trim_chars(&piece);
        let tn = t.len();
        let ts = string_of(&t, 0, tn);
        assert(t@.subrange(0, tn as int) =~= t@);
        let ghost old_parts = parts;
        let ghost np = parts.push(s@.subrange(i as int, end as int));
        assert(np.drop_last() =~= parts);
        match shell_words(ts.as_str()) {
            Some(w) => {
                if w.len() == 0 {
                    proof {
                        lemma_stages_none(parts.push(s@.subrange(i as int, end as int)), rest);
                    }
                    return None;
                }
                let ghost before = stages@;
                stages.push(w);
                assert(argvs(stages@) =~= argvs(before).push(views(w@)));
            },
            None => {
                proof {
                    lemma_stages_none(parts.push(s@.subrange(i as int, end as int)), rest);
                }
                return None;
            },
        }
        proof {
            parts = np;
        }
        match next {
            Some(n) => {
                assert(pieces_from(s@, sep@, i as int) == seq![s@.subrange(i as int, end as int)]
                    + pieces_from(s@, sep@, n as int));
                assert(parts + pieces_from(s@, sep@, n as int) =~= old_parts + pieces_from(s@, sep@, i as int));
                i = n;
            },
            None => {
                assert(parts =~= old_parts + pieces_from(s@, sep@, i as int));
                assert(parts =~= pieces_from(s@, sep@, 0));
                return Some(stages);
            },
        }
    }
}

proof fn lemma_stages_none(a: Seq<Seq<char>>, b: Seq<Seq<char>>)
    requires
        split_stages(a) is None,
    ensures
        split_stages(a + b) is None,
    decreases b.len(),
{
    if b.len() > 0 {
        lemma_stages_none(a, b.drop_last());
        assert((a + b).drop_last() =~= a + b.drop_last());
    } else {
        assert(a + b =~= a);
    }
}

/// Where an external stage reads from.
#[derive(Debug, PartialEq, Eq)]
pub enum StageInput {
    /// The terminal: the first stage.
    Terminal,
    /// The buffered text of the builtin stage just before.
    Buffered,
    /// The output stream of the external stage just before.
    PreviousStage,
}

/// Where an external stage writes to.
#[derive(Debug, PartialEq, Eq)]
pub enum StageOutput {
    /// The terminal: the last stage.
    Terminal,
    /// A fresh pipe to the next stage.
    Pipe,
}

/// How one stage of a pipeline runs.
#[derive(Debug, PartialEq, Eq)]
pub enum Stage {
    /// A builtin, run in-process; its text is printed when `last`, else kept for the next stage.
    Builtin { last: bool },
    /// An external program with its input and output.
    External { input: StageInput, output: StageOutput },
}

/// The plan for stage `i` of a pipeline of the given argument vectors.
pub open spec fn stage_plan(cmds: Seq<Seq<Seq<char>>>, i: int, s: Stage) -> bool {
    let last = i == cmds.len() - 1;
    if builtin_names().contains(cmds[i][0]) {
        s == Stage::Builtin { last }
    } else {
        let input = if i == 0 {
            StageInput::Terminal
        } else if builtin_names().contains(cmds[i - 1][0]) {
            StageInput::Buffered
        } else {
            StageInput::PreviousStage
        };
        let output = if last {
            StageOutput::Terminal
        } else {
            StageOutput::Pipe
        };
        s == Stage::External { input, output }
    }
}

/// Decides, stage by stage, how a pipeline is wired: builtins run in-process, external
/// stages read from the terminal, the buffered text of a builtin or the previous
/// process, and write to a pipe or, last, to the terminal.
pub fn plan_pipeline(commands: &Vec<Vec<String>>) -> (r: Vec<Stage>)
    requires
        forall|i: int| 0 <= i < commands@.len() ==> (#[trigger] commands@[i])@.len() > 0,
    ensures
        r@.len() == commands@.len(),
        forall|i: int| 0 <= i < r@.len() ==> stage_plan(argvs(commands@), i, #[trigger] r@[i]),
{
    let ghost cmds = argvs(commands@);
    let n = commands.len();
    let mut r: Vec<Stage> = Vec::new();
    let mut prev_builtin = false;
    let mut i: usize = 0;
    while i < n
        invariant
            n == commands@.len(),
            cmds == argvs(commands@),
            forall|i: int| 0 <= i < commands@.len() ==> (#[trigger] commands@[i])@.len() > 0,
            i <= n,
            r@.len() == i,
            i > 0 ==> prev_builtin == builtin_names().contains(cmds[i - 1][0]),
            forall|k: int| 0 <= k < i ==> stage_plan(cmds, k, #[trigger] r@[k]),
        decreases n - i,
    {
        assert(cmds[i as int] == views(commands@[i as int]@));
        assert(cmds[i as int][0] == commands@[i as int]@[0]@);
        let b = is_builtin(commands[i][0].as_str());
        let last = i == n - 1;
        let stage = if b {
            Stage::Builtin { last }
        } else {
            let input = if i == 0 {
                StageInput::Terminal
            } else if prev_builtin {
                StageInput::Buffered
            } else {
                StageInput::PreviousStage
            };
            let output = if last {
                StageOutput::Terminal
            } else {
                StageOutput::Pipe
            };
            Stage::External { input, output }
        };
        r.push(stage);
        prev_builtin = b;
        i = i + 1;
    }
    r
}

/// The text fed to an external stage from a builtin's output: the output, with a
/// newline added when it does not already end in one.
pub fn stdin_payload(output: &str) -> (r: String)
    ensures
        output@.len() > 0 && output@.last() == '\n' ==> r@ == output@,
        !(output@.len() > 0 && output@.last() == '\n') ==> r@ == output@.push('\n'),
{
    let c = chars_of(output);
    let n = c.len();
    let mut r = string_of(&c, 0, n);
    assert(c@.subrange(0, n as int) =~= c@);
    if !(n > 0 && c[n - 1] == '\n') {
        r.push('\n');
    }
    r
}

} // verus!

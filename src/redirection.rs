use vstd::prelude::*;
use crate::text::{chars_of, find_chars, find_from, first_word, first_word_of, match_at, string_of, sub_chars};

verus! {

/// The clause that `op` opens in `s`: the text before its leftmost occurrence, and the
/// next whitespace-delimited word after the operator (empty when there is none).
pub open spec fn clause(s: Seq<char>, op: Seq<char>) -> Option<(Seq<char>, Seq<char>)> {
    match find_from(s, op, 0) {
        Some(i) => Some(
            (s.subrange(0, i), first_word(s.subrange(i + op.len(), s.len() as int))),
        ),
        None => None,
    }
}

/// The first operator of `ops` (in order) that opens a clause in `s` fills the slot;
/// the result is the remaining text and the slot's target with its append flag.
pub open spec fn fill_slot(s: Seq<char>, ops: Seq<(Seq<char>, bool)>) -> (Seq<char>, Option<(Seq<char>, bool)>)
    decreases ops.len(),
{
    if ops.len() == 0 {
        (s, None)
    } else {
        match clause(s, ops[0].0) {
            Some((r, p)) => (r, Some((p, ops[0].1))),
            None => fill_slot(s, ops.drop_first()),
        }
    }
}

/// The standard-error operators, in the order they are tried.
pub open spec fn stderr_ops() -> Seq<(Seq<char>, bool)> {
    seq![(seq![' ', '2', '>', '>', ' '], true), (seq![' ', '2', '>', ' '], false)]
}

/// The standard-output operators, in the order they are tried.
pub open spec fn stdout_ops() -> Seq<(Seq<char>, bool)> {
    seq![
        (seq![' ', '1', '>', '>', ' '], true),
        (seq![' ', '>', '>', ' '], true),
        (seq![' ', '1', '>', ' '], false),
        (seq![' ', '>', ' '], false),
    ]
}

/// A line resolved into its residual command text, its standard-output target and its
/// standard-error target.
pub open spec fn resolve(s: Seq<char>) -> (Seq<char>, Option<(Seq<char>, bool)>, Option<(Seq<char>, bool)>) {
    let (r1, err) = fill_slot(s, stderr_ops());
    let (r2, out) = fill_slot(r1, stdout_ops());
    (r2, out, err)
}

pub open spec fn target_view(t: Option<(String, bool)>) -> Option<(Seq<char>, bool)> {
    match t {
        Some((p, a)) => Some((p@, a)),
        None => None,
    }
}

/// The clause that `op` opens in `s`, as the length of the text before it and its target.
fn take_clause(s: &Vec<char>, op: &str) -> (r: Option<(usize, String)>)
    requires
        op@.len() > 0,
    ensures
        match clause(s@, op@) {
            Some((rest, p)) => r matches Some((k, t)) && k <= s@.len() && s@.subrange(0, k as int)
                == rest && t@ == p,
            None => r is None,
        },
{
    let opc = chars_of(op);
    match find_chars(s, &opc, 0) {
        Some(i) => {
            proof {
                crate::text::lemma_find_from(s@, opc@, 0);
            }
            let n = s.len();
            let tail = sub_chars(s, i + opc.len(), n);
            let path = first_word_of(&tail);
            Some((i, path))
        },
        None => None,
    }
}

/// Resolves the first clause among `ops` (tried in order) that stands in `s`.
fn take_slot(s: Vec<char>, ops: &Vec<(&str, bool)>) -> (r: (Vec<char>, Option<(String, bool)>))
    requires
        forall|k: int| 0 <= k < ops@.len() ==> (#[trigger] ops@[k]).0@.len() > 0,
    ensures
        (r.0@, target_view(r.1)) == fill_slot(s@, ops@.map_values(|o: (&str, bool)| (o.0@, o.1))),
{
    let ghost all = ops@.map_values(|o: (&str, bool)| (o.0@, o.1));
    let mut k: usize = 0;
    assert(all.subrange(0, all.len() as int) =~= all);
    while k < ops.len()
        invariant
            all == ops@.map_values(|o: (&str, bool)| (o.0@, o.1)),
            forall|k: int| 0 <= k < ops@.len() ==> (#[trigger] ops@[k]).0@.len() > 0,
            k <= ops@.len(),
            fill_slot(s@, all) == fill_slot(s@, all.subrange(k as int, all.len() as int)),
        decreases ops@.len() - k,
    {
        let ghost rest = all.subrange(k as int, all.len() as int);
        assert(rest[0] == (ops@[k as int].0@, ops@[k as int].1));
        assert(rest.drop_first() =~= all.subrange(k + 1, all.len() as int));
        let (op, append) = ops[k];
        match take_clause(&s, op) {
            Some((i, path)) => {
                let before = sub_chars(&s, 0, i);
                return (before, Some((path, append)));
            },
            None => {},
        }
        k = k + 1;
    }
    (s, None)
}

/// Strips the trailing redirection clauses from a command line: the residual text, the
/// standard-output target and the standard-error target, each with its append flag.
pub fn parse_redirection(input: &str) -> (r: (String, Option<(String, bool)>, Option<(String, bool)>))
    ensures
        (r.0@, target_view(r.1), target_view(r.2)) == resolve(input@),
{
    let s = chars_of(input);
    let err_ops: Vec<(&str, bool)> = vec![(" 2>> ", true), (" 2> ", false)];
    let out_ops: Vec<(&str, bool)> = vec![(" 1>> ", true), (" >> ", true), (" 1> ", false), (" > ", false)];
    proof {
        reveal_strlit(" 2>> ");
        reveal_strlit(" 2> ");
        reveal_strlit(" 1>> ");
        reveal_strlit(" >> ");
        reveal_strlit(" 1> ");
        reveal_strlit(" > ");
        assert(" 2>> "@ =~= seq![' ', '2', '>', '>', ' ']);
        assert(" 2> "@ =~= seq![' ', '2', '>', ' ']);
        assert(" 1>> "@ =~= seq![' ', '1', '>', '>', ' ']);
        assert(" >> "@ =~= seq![' ', '>', '>', ' ']);
        assert(" 1> "@ =~= seq![' ', '1', '>', ' ']);
        assert(" > "@ =~= seq![' ', '>', ' ']);
        assert(err_ops@.map_values(|o: (&str, bool)| (o.0@, o.1)) =~= stderr_ops());
        assert(out_ops@.map_values(|o: (&str, bool)| (o.0@, o.1)) =~= stdout_ops());
    }
    let (r1, err) = take_slot(s, &err_ops);
    let (r2, out) = take_slot(r1, &out_ops);
    let n = r2.len();
    (string_of(&r2, 0, n), out, err)
}

} // verus!

verus! {

/// Whether any redirection operator stands in `s`.
pub open spec fn holds_operator(s: Seq<char>) -> bool {
    ||| (exists|k: int| 0 <= k < stderr_ops().len() && find_from(s, stderr_ops()[k].0, 0) is Some)
    ||| (exists|k: int| 0 <= k < stdout_ops().len() && find_from(s, stdout_ops()[k].0, 0) is Some)
}

proof fn lemma_fill_slot_none(s: Seq<char>, ops: Seq<(Seq<char>, bool)>)
    requires
        forall|k: int| 0 <= k < ops.len() ==> find_from(s, (#[trigger] ops[k]).0, 0) is None,
    ensures
        fill_slot(s, ops) == (s, Option::<(Seq<char>, bool)>::None),
    decreases ops.len(),
{
    if ops.len() > 0 {
        assert(find_from(s, ops[0].0, 0) is None);
        assert forall|k: int| 0 <= k < ops.drop_first().len() implies find_from(
            s,
            (#[trigger] ops.drop_first()[k]).0,
            0,
        ) is None by {
            assert(ops.drop_first()[k] == ops[k + 1]);
        }
        lemma_fill_slot_none(s, ops.drop_first());
    }
}

proof fn lemma_fill_slot_first(s: Seq<char>, ops: Seq<(Seq<char>, bool)>)
    requires
        ops.len() > 0,
        ops[0].0.len() > 0,
    ensures
        find_from(fill_slot(s, ops).0, ops[0].0, 0) is None,
        fill_slot(s, ops).0.len() <= s.len(),
        fill_slot(s, ops).0 == s.subrange(0, fill_slot(s, ops).0.len() as int),
    decreases ops.len(),
{
    let op = ops[0].0;
    crate::text::lemma_find_from(s, op, 0);
    match find_from(s, op, 0) {
        Some(i) => {
            let r = s.subrange(0, i);
            crate::text::lemma_find_from(r, op, 0);
            if find_from(r, op, 0) is Some {
                let j = find_from(r, op, 0)->0;
                assert(r.subrange(j, j + op.len()) =~= s.subrange(j, j + op.len()));
        assert(match_at(s, op, j));
            }
        },
        None => {
            lemma_fill_slot_prefix(s, ops.drop_first());
            let r = fill_slot(s, ops).0;
            crate::text::lemma_find_from(r, op, 0);
            if find_from(r, op, 0) is Some {
                let j = find_from(r, op, 0)->0;
                assert(r.subrange(j, j + op.len()) =~= s.subrange(j, j + op.len()));
        assert(match_at(s, op, j));
            }
        },
    }
}

proof fn lemma_fill_slot_prefix(s: Seq<char>, ops: Seq<(Seq<char>, bool)>)
    ensures
        fill_slot(s, ops).0.len() <= s.len(),
        fill_slot(s, ops).0 == s.subrange(0, fill_slot(s, ops).0.len() as int),
    decreases ops.len(),
{
    if ops.len() == 0 {
        assert(s.subrange(0, s.len() as int) =~= s);
    } else {
        crate::text::lemma_find_from(s, ops[0].0, 0);
        match find_from(s, ops[0].0, 0) {
            Some(i) => {},
            None => {
                lemma_fill_slot_prefix(s, ops.drop_first());
            },
        }
    }
}

proof fn lemma_absent_in_prefix(s: Seq<char>, op: Seq<char>, n: int)
    requires
        0 <= n <= s.len(),
        find_from(s, op, 0) is None,
    ensures
        find_from(s.subrange(0, n), op, 0) is None,
{
    let r = s.subrange(0, n);
    crate::text::lemma_find_from(s, op, 0);
    crate::text::lemma_find_from(r, op, 0);
    if find_from(r, op, 0) is Some {
        let j = find_from(r, op, 0)->0;
        assert(r.subrange(j, j + op.len()) =~= s.subrange(j, j + op.len()));
        assert(match_at(s, op, j));
    }
}

/// At most one occurrence, in all, of the operators of `ops` stands in `s`.
pub open spec fn at_most_one(s: Seq<char>, ops: Seq<(Seq<char>, bool)>) -> bool {
    forall|a: int, b: int, j: int, k: int|
        0 <= a < ops.len() && 0 <= b < ops.len() && #[trigger] match_at(s, ops[a].0, j)
            && #[trigger] match_at(s, ops[b].0, k) ==> a == b && j == k
}

/// At most one standard-error operator and at most one standard-output operator stand
/// in the line.
pub open spec fn one_clause_per_slot(s: Seq<char>) -> bool {
    at_most_one(s, stderr_ops()) && at_most_one(s, stdout_ops())
}

proof fn lemma_match_in_prefix(s: Seq<char>, op: Seq<char>, n: int, j: int)
    requires
        0 <= n <= s.len(),
        match_at(s.subrange(0, n), op, j),
    ensures
        match_at(s, op, j),
        j + op.len() <= n,
{
    assert(s.subrange(0, n).subrange(j, j + op.len()) =~= s.subrange(j, j + op.len()));
}

proof fn lemma_fill_slot_cases(s: Seq<char>, ops: Seq<(Seq<char>, bool)>)
    ensures
        fill_slot(s, ops).1 is None ==> fill_slot(s, ops).0 == s && forall|b: int|
            0 <= b < ops.len() ==> find_from(s, (#[trigger] ops[b]).0, 0) is None,
        fill_slot(s, ops).1 is Some ==> exists|a: int, i: int|
            0 <= a < ops.len() && #[trigger] match_at(s, ops[a].0, i) && fill_slot(s, ops).0
                == s.subrange(0, i),
    decreases ops.len(),
{
    if ops.len() > 0 {
        crate::text::lemma_find_from(s, ops[0].0, 0);
        lemma_fill_slot_cases(s, ops.drop_first());
        match find_from(s, ops[0].0, 0) {
            Some(i) => {
                assert(match_at(s, ops[0].0, i));
            },
            None => {
                if fill_slot(s, ops).1 is Some {
                    let (a, i) = choose|a: int, i: int|
                        0 <= a < ops.drop_first().len() && #[trigger] match_at(s, ops.drop_first()[a].0, i) && fill_slot(s, ops.drop_first()).0 == s.subrange(0, i);
                    assert(ops[a + 1] == ops.drop_first()[a]);
                } else {
                    assert forall|b: int| 0 <= b < ops.len() implies find_from(
                        s,
                        (#[trigger] ops[b]).0,
                        0,
                    ) is None by {
                        if b > 0 {
                            assert(ops[b] == ops.drop_first()[b - 1]);
                        }
                    }
                }
            },
        }
    }
}

proof fn lemma_slot_clears(s: Seq<char>, ops: Seq<(Seq<char>, bool)>)
    requires
        at_most_one(s, ops),
        forall|a: int| 0 <= a < ops.len() ==> (#[trigger] ops[a]).0.len() > 0,
    ensures
        forall|b: int|
            0 <= b < ops.len() ==> find_from(fill_slot(s, ops).0, (#[trigger] ops[b]).0, 0) is None,
{
    lemma_fill_slot_cases(s, ops);
    lemma_fill_slot_prefix(s, ops);
    let r = fill_slot(s, ops).0;
    assert forall|b: int| 0 <= b < ops.len() implies find_from(r, (#[trigger] ops[b]).0, 0) is None by {
        crate::text::lemma_find_from(r, ops[b].0, 0);
        if find_from(r, ops[b].0, 0) is Some {
            let j = find_from(r, ops[b].0, 0)->0;
            assert(r == s.subrange(0, r.len() as int));
            lemma_match_in_prefix(s, ops[b].0, r.len() as int, j);
            if fill_slot(s, ops).1 is Some {
                let (a, i) = choose|a: int, i: int|
                    0 <= a < ops.len() && #[trigger] match_at(s, ops[a].0, i) && r == s.subrange(
                        0,
                        i,
                    );
                assert(r.len() == i);
                assert(a == b && j == i);
            } else {
                crate::text::lemma_find_from(s, ops[b].0, 0);
            }
        }
    }
}

proof fn lemma_at_most_one_prefix(s: Seq<char>, ops: Seq<(Seq<char>, bool)>, n: int)
    requires
        0 <= n <= s.len(),
        at_most_one(s, ops),
    ensures
        at_most_one(s.subrange(0, n), ops),
{
    let r = s.subrange(0, n);
    assert forall|a: int, b: int, j: int, k: int|
        0 <= a < ops.len() && 0 <= b < ops.len() && #[trigger] match_at(r, ops[a].0, j)
            && #[trigger] match_at(r, ops[b].0, k) implies a == b && j == k by {
        lemma_match_in_prefix(s, ops[a].0, n, j);
        lemma_match_in_prefix(s, ops[b].0, n, k);
    }
}

/// With at most one operator per slot in the line, its residual holds no operator, so
/// resolving that residual again finds no further clause and leaves it as it is.
pub proof fn resolve_residual_again(line: Seq<char>)
    requires
        one_clause_per_slot(line),
    ensures
        !holds_operator(resolve(line).0),
        resolve(resolve(line).0) == (
            resolve(line).0,
            Option::<(Seq<char>, bool)>::None,
            Option::<(Seq<char>, bool)>::None,
        ),
{
    let r1 = fill_slot(line, stderr_ops()).0;
    lemma_slot_clears(line, stderr_ops());
    lemma_fill_slot_prefix(line, stderr_ops());
    lemma_at_most_one_prefix(line, stdout_ops(), r1.len() as int);
    lemma_slot_clears(r1, stdout_ops());
    lemma_fill_slot_prefix(r1, stdout_ops());
    let r = fill_slot(r1, stdout_ops()).0;
    assert(r == resolve(line).0);
    assert forall|k: int| 0 <= k < stderr_ops().len() implies find_from(r, (#[trigger] stderr_ops()[k]).0, 0) is None by {
        lemma_absent_in_prefix(r1, stderr_ops()[k].0, r.len() as int);
    }
    lemma_fill_slot_none(r, stderr_ops());
    lemma_fill_slot_none(r, stdout_ops());
}

/// The residual never holds the first operator of either slot (` 2>> ` and ` 1>> `), so
/// re-running the resolver can never take those again.
pub proof fn residual_lacks_first_operators(line: Seq<char>)
    ensures
        find_from(resolve(line).0, stderr_ops()[0].0, 0) is None,
        find_from(resolve(line).0, stdout_ops()[0].0, 0) is None,
{
    let (r1, err) = fill_slot(line, stderr_ops());
    lemma_fill_slot_first(line, stderr_ops());
    lemma_fill_slot_first(r1, stdout_ops());
    lemma_fill_slot_prefix(r1, stdout_ops());
    let r2 = fill_slot(r1, stdout_ops()).0;
    lemma_absent_in_prefix(r1, stderr_ops()[0].0, r2.len() as int);
}

} // verus!

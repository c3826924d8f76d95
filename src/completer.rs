use vstd::prelude::*;

use crate::builtins::{builtin_name_list, builtin_names};
use crate::text::{is_ws, chars_of, join, join_from, string_of, split_whitespace_chars, views, words};

verus! {

/// Whether `p` is a prefix of `s`.
pub open spec fn has_prefix(s: Seq<char>, p: Seq<char>) -> bool {
    p.len() <= s.len() && s.subrange(0, p.len() as int) == p
}

/// Lexicographic order on code points, as `String`'s `Ord` compares.
pub open spec fn lex_lt(a: Seq<char>, b: Seq<char>) -> bool
    decreases a.len(),
{
    if a.len() == 0 {
        b.len() > 0
    } else if b.len() == 0 {
        false
    } else if a[0] != b[0] {
        a[0] < b[0]
    } else {
        lex_lt(a.drop_first(), b.drop_first())
    }
}

/// Each element strictly below the next: sorted, without duplicates.
pub open spec fn strictly_sorted(v: Seq<Seq<char>>) -> bool {
    forall|i: int, j: int| 0 <= i < j < v.len() ==> lex_lt(#[trigger] v[i], #[trigger] v[j])
}

/// `m` lists, sorted and once each, the names of `names` that begin with `frag`.
pub open spec fn sorted_matches(m: Seq<Seq<char>>, names: Seq<Seq<char>>, frag: Seq<char>) -> bool {
    &&& strictly_sorted(m)
    &&& forall|x: Seq<char>| #[trigger] m.contains(x) <==> (names.contains(x) && has_prefix(x, frag))
}

/// How many leading characters `a` and `b` share.
pub open spec fn common_len(a: Seq<char>, b: Seq<char>) -> nat
    decreases a.len(),
{
    if a.len() == 0 || b.len() == 0 || a[0] != b[0] {
        0
    } else {
        1 + common_len(a.drop_first(), b.drop_first())
    }
}

/// The length of the longest common prefix of the first string with each of the others.
pub open spec fn lcp_len(v: Seq<Seq<char>>) -> nat
    decreases v.len(),
{
    if v.len() == 0 {
        0
    } else if v.len() == 1 {
        v[0].len()
    } else {
        let k = lcp_len(v.drop_last());
        let c = common_len(v[0], v.last());
        if c < k {
            c
        } else {
            k
        }
    }
}

/// The longest prefix that all the strings share.
pub open spec fn lcp(v: Seq<Seq<char>>) -> Seq<char> {
    if v.len() == 0 {
        seq![]
    } else {
        v[0].subrange(0, lcp_len(v) as int)
    }
}

proof fn lemma_lex_trans(a: Seq<char>, b: Seq<char>, c: Seq<char>)
    requires
        lex_lt(a, b),
        lex_lt(b, c),
    ensures
        lex_lt(a, c),
    decreases a.len(),
{
    if a.len() > 0 && b.len() > 0 && c.len() > 0 && a[0] == b[0] && b[0] == c[0] {
        lemma_lex_trans(a.drop_first(), b.drop_first(), c.drop_first());
    }
}

proof fn lemma_lex_total(a: Seq<char>, b: Seq<char>)
    requires
        !lex_lt(a, b),
        !lex_lt(b, a),
    ensures
        a == b,
    decreases a.len(),
{
    if a.len() > 0 && b.len() > 0 {
        if a[0] == b[0] {
            lemma_lex_total(a.drop_first(), b.drop_first());
            assert(a =~= seq![a[0]] + a.drop_first());
            assert(b =~= seq![b[0]] + b.drop_first());
        } else {
        }
    } else {
        assert(a =~= b);
    }
}

fn lex_less(a: &Vec<char>, b: &Vec<char>) -> (r: bool)
    ensures
        r == lex_lt(a@, b@),
{
    let mut i: usize = 0;
    assert(a@.subrange(0, a@.len() as int) =~= a@);
    assert(b@.subrange(0, b@.len() as int) =~= b@);
    while i < a.len() && i < b.len() && a[i] == b[i]
        invariant
            i <= a@.len(),
            i <= b@.len(),
            lex_lt(a@, b@) == lex_lt(
                a@.subrange(i as int, a@.len() as int),
                b@.subrange(i as int, b@.len() as int),
            ),
        decreases a@.len() - i,
    {
        let ghost x = a@.subrange(i as int, a@.len() as int);
        let ghost y = b@.subrange(i as int, b@.len() as int);
        assert(x.drop_first() =~= a@.subrange(i + 1, a@.len() as int));
        assert(y.drop_first() =~= b@.subrange(i + 1, b@.len() as int));
        i = i + 1;
    }
    let ghost x = a@.subrange(i as int, a@.len() as int);
    let ghost y = b@.subrange(i as int, b@.len() as int);
    if i == a.len() {
        i < b.len()
    } else if i == b.len() {
        false
    } else {
        assert(x[0] == a@[i as int] && y[0] == b@[i as int]);
        a[i] < b[i]
    }
}

fn starts_with_chars(s: &Vec<char>, p: &Vec<char>) -> (r: bool)
    ensures
        r == has_prefix(s@, p@),
{
    if p.len() > s.len() {
        return false;
    }
    let mut k: usize = 0;
    while k < p.len()
        invariant
            p@.len() <= s@.len(),
            k <= p@.len(),
            forall|m: int| 0 <= m < k ==> s@[m] == p@[m],
        decreases p@.len() - k,
    {
        if s[k] != p[k] {
            assert(s@.subrange(0, p@.len() as int)[k as int] != p@[k as int]);
            return false;
        }
        k = k + 1;
    }
    assert(s@.subrange(0, p@.len() as int) =~= p@);
    true
}

/// The views of a vector of character vectors.
pub open spec fn cviews(v: Seq<Vec<char>>) -> Seq<Seq<char>> {
    v.map_values(|x: Vec<char>| x@)
}

/// The names that begin with `frag`, sorted and each once.
pub fn matching_names(names: &Vec<String>, frag: &str) -> (r: Vec<String>)
    ensures
        sorted_matches(views(r@), views(names@), frag@),
{
    let f = chars_of(frag);
    let mut sorted: Vec<Vec<char>> = Vec::new();
    let ghost seen: Seq<Seq<char>> = seq![];
    let mut i: usize = 0;
    while i < names.len()
        invariant
            i <= names@.len(),
            f@ == frag@,
            strictly_sorted(cviews(sorted@)),
            forall|x: Seq<char>|
                #[trigger] cviews(sorted@).contains(x) <==> (views(
                    names@.subrange(0, i as int),
                ).contains(x) && has_prefix(x, frag@)),
        decreases names@.len() - i,
    {
        let ghost before = cviews(sorted@);
        let c = chars_of(names[i].as_str());
        let ghost old_names = views(names@.subrange(0, i as int));
        assert(views(names@.subrange(0, i + 1)) =~= old_names.push(c@));
        assert forall|x: Seq<char>| #[trigger] old_names.push(c@).contains(x) <==> (old_names.contains(x) || x == c@) by {
            if old_names.push(c@).contains(x) {
                let k = choose|k: int| 0 <= k < old_names.len() + 1 && old_names.push(c@)[k] == x;
                if k < old_names.len() {
                    assert(old_names[k] == x);
                }
            }
            if old_names.contains(x) {
                let k = choose|k: int| 0 <= k < old_names.len() && old_names[k] == x;
                assert(old_names.push(c@)[k] == x);
            }
            if x == c@ {
                assert(old_names.push(c@)[old_names.len() as int] == x);
            }
        }
        if starts_with_chars(&c, &f) {
            let mut p: usize = 0;
            while p < sorted.len() && lex_less(&sorted[p], &c)
                invariant
                    p <= sorted@.len(),
                    before == cviews(sorted@),
                    forall|j: int| 0 <= j < p ==> lex_lt(#[trigger] before[j], c@),
                decreases sorted@.len() - p,
            {
                p = p + 1;
            }
            let dup = p < sorted.len() && !lex_less(&c, &sorted[p]);
            if dup {
                proof {
                    lemma_lex_total(before[p as int], c@);
                    assert(before.contains(c@)) by {
                        assert(before[p as int] == c@);
                    }
                }
            } else {
                proof {
                    if p < before.len() {
                        assert forall|j: int| p <= j < before.len() implies lex_lt(c@, #[trigger] before[j]) by {
                            if j > p {
                                lemma_lex_trans(c@, before[p as int], before[j]);
                            }
                        }
                    }
                }
                sorted.insert(p, c);
                let ghost after = cviews(sorted@);
                assert(after =~= before.insert(p as int, c@));
                assert forall|x: Seq<char>| #[trigger] after.contains(x) <==> (before.contains(x) || x == c@) by {
                    if after.contains(x) {
                        let k = choose|k: int| 0 <= k < after.len() && after[k] == x;
                        if k < p {
                            assert(before[k] == x);
                        } else if k > p {
                            assert(before[k - 1] == x);
                        }
                    }
                    if before.contains(x) {
                        let k = choose|k: int| 0 <= k < before.len() && before[k] == x;
                        if k < p {
                            assert(after[k] == x);
                        } else {
                            assert(after[k + 1] == x);
                        }
                    }
                    if x == c@ {
                        assert(after[p as int] == x);
                    }
                }
            }
        }
        i = i + 1;
    }
    assert(names@.subrange(0, names@.len() as int) =~= names@);
    let mut r: Vec<String> = Vec::new();
    let mut k: usize = 0;
    while k < sorted.len()
        invariant
            k <= sorted@.len(),
            views(r@) =~= cviews(sorted@).subrange(0, k as int),
        decreases sorted@.len() - k,
    {
        let n = sorted[k].len();
        let ghost prev = r@;
        r.push(string_of(&sorted[k], 0, n));
        proof {
            assert(views(r@) =~= views(prev).push(r@.last()@));
            assert(sorted@[k as int]@.subrange(0, n as int) =~= sorted@[k as int]@);
        }
        k = k + 1;
    }
    assert(cviews(sorted@).subrange(0, k as int) =~= cviews(sorted@));
    r
}


fn common_prefix_len(a: &Vec<char>, b: &Vec<char>) -> (r: usize)
    ensures
        r == common_len(a@, b@),
        r <= a@.len(),
{
    let mut i: usize = 0;
    assert(a@.subrange(0, a@.len() as int) =~= a@);
    assert(b@.subrange(0, b@.len() as int) =~= b@);
    while i < a.len() && i < b.len() && a[i] == b[i]
        invariant
            i <= a@.len(),
            i <= b@.len(),
            common_len(a@, b@) == i + common_len(
                a@.subrange(i as int, a@.len() as int),
                b@.subrange(i as int, b@.len() as int),
            ),
        decreases a@.len() - i,
    {
        let ghost x = a@.subrange(i as int, a@.len() as int);
        let ghost y = b@.subrange(i as int, b@.len() as int);
        assert(x.drop_first() =~= a@.subrange(i + 1, a@.len() as int));
        assert(y.drop_first() =~= b@.subrange(i + 1, b@.len() as int));
        i = i + 1;
    }
    let ghost x = a@.subrange(i as int, a@.len() as int);
    let ghost y = b@.subrange(i as int, b@.len() as int);
    if i < a.len() && i < b.len() {
        assert(x[0] == a@[i as int] && y[0] == b@[i as int]);
    }
    i
}

/// The longest prefix shared by all the strings (empty for none).
pub fn find_longest_common_prefix(strings: &Vec<String>) -> (r: String)
    ensures
        r@ == lcp(views(strings@)),
{
    if strings.len() == 0 {
        return String::new();
    }
    let ghost v = views(strings@);
    let first = chars_of(strings[0].as_str());
    assert(v[0] == first@);
    let mut k: usize = first.len();
    let mut j: usize = 1;
    assert(v.subrange(0, 1).len() == 1);
    while j < strings.len()
        invariant
            v == views(strings@),
            v[0] == first@,
            1 <= j <= strings@.len(),
            k <= first@.len(),
            k == lcp_len(v.subrange(0, j as int)),
        decreases strings@.len() - j,
    {
        let other = chars_of(strings[j].as_str());
        let c = common_prefix_len(&first, &other);
        let ghost sub = v.subrange(0, j + 1);
        assert(sub.drop_last() =~= v.subrange(0, j as int));
        assert(sub[0] == first@ && sub.last() == other@);
        if c < k {
            k = c;
        }
        j = j + 1;
    }
    assert(v.subrange(0, j as int) =~= v);
    string_of(&first, 0, k)
}

/// The strings of `v` that begin with `frag`, each followed by a space.
pub open spec fn spaced_matches(v: Seq<Seq<char>>, frag: Seq<char>) -> Seq<Seq<char>>
    decreases v.len(),
{
    if v.len() == 0 {
        seq![]
    } else {
        let rest = spaced_matches(v.drop_last(), frag);
        if has_prefix(v.last(), frag) {
            rest.push(v.last().push(' '))
        } else {
            rest
        }
    }
}

/// Each string followed by a space.
pub open spec fn with_space(v: Seq<Seq<char>>) -> Seq<Seq<char>> {
    v.map_values(|x: Seq<char>| x.push(' '))
}

/// The word being completed: the last whitespace-separated word before the cursor.
pub open spec fn fragment(line: Seq<char>, pos: nat) -> Seq<char> {
    let w = words(line.subrange(0, pos as int));
    if w.len() > 0 {
        w.last()
    } else {
        seq![]
    }
}

/// The builtin candidates: only while the cursor is within the first word.
pub open spec fn builtin_candidates(line: Seq<char>, pos: nat) -> Seq<Seq<char>> {
    if words(line.subrange(0, pos as int)).len() <= 1 {
        spaced_matches(builtin_names(), fragment(line, pos))
    } else {
        seq![]
    }
}

/// What one completion request yields.
#[derive(Debug, PartialEq, Eq)]
pub enum Completion {
    /// Replace the text from `start` (a character index) to the cursor by one of `items`.
    Candidates { start: usize, items: Vec<String> },
    /// No progress possible yet: ring the terminal bell.
    Bell,
    /// Print `text` (the sorted matches) below the line and redraw it.
    Listing { text: String },
}

/// The result of completing at `pos` in `line` on press `count`, where `m` are the sorted
/// executables that begin with the fragment.
pub open spec fn completion_is(r: Completion, line: Seq<char>, pos: nat, count: nat, m: Seq<Seq<char>>) -> bool {
    let frag = fragment(line, pos);
    let start = pos - frag.len();
    if m.len() > 1 && frag.len() > 0 {
        if lcp(m).len() > frag.len() {
            r matches Completion::Candidates { start: s, items } && s == start && views(items@)
                == seq![lcp(m)]
        } else if count == 1 {
            r is Bell
        } else {
            r matches Completion::Listing { text } && text@ == join(m, seq![' ', ' '])
        }
    } else {
        r matches Completion::Candidates { start: s, items } && s == start && views(items@)
            == builtin_candidates(line, pos) + with_space(m)
    }
}

proof fn lemma_words_short(s: Seq<char>)
    ensures
        forall|k: int| 0 <= k < words(s).len() ==> (#[trigger] words(s)[k]).len() <= s.len(),
    decreases s.len(),
{
    if s.len() > 0 {
        let p = s.drop_last();
        lemma_words_short(p);
        let w = words(p);
        let c = s.last();
        if !is_ws(c) && p.len() > 0 && !is_ws(p.last()) && w.len() > 0 {
            assert(w.last() == w[w.len() - 1]);
            assert forall|k: int| 0 <= k < words(s).len() implies (#[trigger] words(s)[k]).len() <= s.len() by {
                if k < w.len() - 1 {
                    assert(words(s)[k] == w[k]);
                }
            }
        }
    }
}

/// Completion of the names of builtins and of executables on the search path, with
/// the press count of repeated requests at the same line and cursor.
pub struct MyCompleter {
    last_line: String,
    last_pos: usize,
    tab_count: usize,
}

impl MyCompleter {
    pub closed spec fn line_view(&self) -> Seq<char> {
        self.last_line@
    }

    pub closed spec fn pos_view(&self) -> nat {
        self.last_pos as nat
    }

    pub closed spec fn count_view(&self) -> nat {
        self.tab_count as nat
    }

    /// A completer that has seen no request yet.
    pub fn new() -> (r: Self)
        ensures
            r.line_view() == Seq::<char>::empty(),
            r.pos_view() == 0,
            r.count_view() == 0,
    {
        MyCompleter { last_line: String::new(), last_pos: 0, tab_count: 0 }
    }

    /// Records a request at (`line`, `pos`) and returns its press count: one more than
    /// before when the pair is the one last seen, else 1.
    pub fn register(&mut self, line: &str, pos: usize) -> (count: usize)
        ensures
            count as nat == final(self).count_view(),
            (old(self).line_view() == line@ && old(self).pos_view() == pos) ==> (final(self).count_view()
                == if old(self).count_view() < usize::MAX {
                old(self).count_view() + 1
            } else {
                old(self).count_view()
            }),
            !(old(self).line_view() == line@ && old(self).pos_view() == pos)
                ==> final(self).count_view() == 1,
            final(self).line_view() == line@,
            final(self).pos_view() == pos,
    {
        if text_eq_string(&self.last_line, line) && self.last_pos == pos {
            if self.tab_count < usize::MAX {
                self.tab_count = self.tab_count + 1;
            }
        } else {
            self.tab_count = 1;
            self.last_line = line.to_owned();
            self.last_pos = pos;
        }
        self.tab_count
    }

    /// Completes the word before the cursor `pos` (a character index) in `line`, given the
    /// names of the executable files found on the search path, in the order found.
    pub fn complete(&mut self, line: &str, pos: usize, names: &Vec<String>) -> (r: Completion)
        requires
            pos <= line@.len(),
        ensures
            final(self).line_view() == line@,
            final(self).pos_view() == pos,
            (old(self).line_view() == line@ && old(self).pos_view() == pos) ==> final(self).count_view()
                == if old(self).count_view() < usize::MAX {
                old(self).count_view() + 1
            } else {
                old(self).count_view()
            },
            !(old(self).line_view() == line@ && old(self).pos_view() == pos)
                ==> final(self).count_view() == 1,
            exists|m: Seq<Seq<char>>|
                sorted_matches(m, views(names@), fragment(line@, pos as nat)) && completion_is(
                    r,
                    line@,
                    pos as nat,
                    final(self).count_view(),
                    m,
                ),
    {
        let count = self.register(line, pos);
        let lc = chars_of(line);
        let tokens = split_whitespace_chars(&lc, pos);
        proof {
            lemma_words_short(lc@.subrange(0, pos as int));
        }
        let frag = if tokens.len() > 0 {
            tokens[tokens.len() - 1].clone()
        } else {
            String::new()
        };
        assert(frag@ == fragment(line@, pos as nat)) by {
            if tokens.len() > 0 {
                assert(views(tokens@)[tokens@.len() - 1] == tokens@[tokens@.len() - 1]@);
            }
        }
        let start = pos - frag.as_str().unicode_len();
        let matches = matching_names(names, frag.as_str());
        let ghost m = views(matches@);
        if matches.len() > 1 && frag.as_str().unicode_len() > 0 {
            let common = find_longest_common_prefix(&matches);
            if common.as_str().unicode_len() > frag.as_str().unicode_len() {
                let mut items: Vec<String> = Vec::new();
                items.push(common);
                assert(views(items@) =~= seq![lcp(m)]);
                return Completion::Candidates { start, items };
            }
            if count == 1 {
                return Completion::Bell;
            }
            proof {
                reveal_strlit("  ");
                assert("  "@ =~= seq![' ', ' ']);
                assert(views(matches@).subrange(0, matches@.len() as int) =~= m);
            }
            let text = join_from(&matches, 0, "  ");
            return Completion::Listing { text };
        }
        let mut items: Vec<String> = Vec::new();
        if tokens.len() <= 1 {
            let bnames = builtin_name_list();
            let fc = chars_of(frag.as_str());
            let mut i: usize = 0;
            assert(builtin_names().subrange(0, 0) =~= Seq::<Seq<char>>::empty());
            while i < bnames.len()
                invariant
                    views(bnames@) == builtin_names(),
                    i <= bnames@.len(),
                    fc@ == frag@,
                    views(items@) == spaced_matches(builtin_names().subrange(0, i as int), frag@),
                decreases bnames@.len() - i,
            {
                let ghost sub = builtin_names().subrange(0, i + 1);
                assert(sub.drop_last() =~= builtin_names().subrange(0, i as int));
                assert(sub.last() == bnames@[i as int]@);
                let bc = chars_of(bnames[i].as_str());
                if starts_with_chars(&bc, &fc) {
                    let mut cand = bnames[i].clone();
                    cand.push(' ');
                    let ghost prev = items@;
                    items.push(cand);
                    assert(views(items@) =~= views(prev).push(cand@));
                }
                i = i + 1;
            }
            assert(builtin_names().subrange(0, 6) =~= builtin_names());
        }
        let ghost bitems = views(items@);
        assert(bitems == builtin_candidates(line@, pos as nat));
        let mut k: usize = 0;
        while k < matches.len()
            invariant
                k <= matches@.len(),
                m == views(matches@),
                views(items@) == bitems + with_space(m.subrange(0, k as int)),
            decreases matches@.len() - k,
        {
            let mut cand = matches[k].clone();
            cand.push(' ');
            let ghost prev = items@;
            items.push(cand);
            assert(views(items@) =~= views(prev).push(cand@));
            assert(with_space(m.subrange(0, k + 1)) =~= with_space(m.subrange(0, k as int)).push(
                m[k as int].push(' '),
            ));
            k = k + 1;
        }
        assert(m.subrange(0, k as int) =~= m);
        Completion::Candidates { start, items }
    }
}

/// Whether a string holds the characters of `b`.
fn text_eq_string(a: &String, b: &str) -> (r: bool)
    ensures
        r == (a@ == b@),
{
    crate::text::text_eq(a.as_str(), b)
}

} // verus!

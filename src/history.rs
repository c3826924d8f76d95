use vstd::prelude::*;
use crate::text::{fields, join, join_from, push_all, split_char, trim, trim_chars, chars_of, string_of, views};

verus! {

/// The non-blank lines of a history file's text, trimmed, in order.
pub open spec fn entries_in(lines: Seq<Seq<char>>) -> Seq<Seq<char>>
    decreases lines.len(),
{
    if lines.len() == 0 {
        seq![]
    } else {
        let rest = entries_in(lines.drop_last());
        let t = trim(lines.last());
        if t.len() > 0 {
            rest.push(t)
        } else {
            rest
        }
    }
}

/// Each entry followed by a newline, all together.
pub open spec fn as_lines(v: Seq<Seq<char>>) -> Seq<char>
    decreases v.len(),
{
    if v.len() == 0 {
        seq![]
    } else {
        as_lines(v.drop_last()) + v.last().push('\n')
    }
}

/// What appending the entries past the watermark writes; nothing when none are new.
pub open spec fn append_new_text(log: Seq<Seq<char>>, watermark: nat) -> Option<Seq<char>> {
    if watermark < log.len() {
        Some(as_lines(log.subrange(watermark as int, log.len() as int)))
    } else {
        None
    }
}

/// How the log is saved when the session ends: the whole log when the file is empty,
/// else only what was added since the last flush.
#[derive(Debug, PartialEq, Eq)]
pub enum ExitFlush {
    WriteAll { text: String },
    Append { text: String },
    Nothing,
}

/// The log of accepted command lines, with the watermark of how many leading entries
/// are already in the history file.
pub struct History {
    entries: Vec<String>,
    last_flushed: usize,
}

impl History {
    pub closed spec fn log(&self) -> Seq<Seq<char>> {
        views(self.entries@)
    }

    pub closed spec fn watermark(&self) -> nat {
        self.last_flushed as nat
    }

    pub fn new() -> (r: Self)
        ensures
            r.log() == Seq::<Seq<char>>::empty(),
            r.watermark() == 0,
            r.watermark() <= r.log().len(),
    {
        let r = History { entries: Vec::new(), last_flushed: 0 };
        assert(r.log() =~= Seq::<Seq<char>>::empty());
        r
    }

    pub fn len(&self) -> (r: usize)
        ensures
            r == self.log().len(),
    {
        self.entries.len()
    }

    /// Adds an accepted line to the log; nothing is written.
    pub fn append(&mut self, line: &str)
        ensures
            final(self).log() == old(self).log().push(line@),
            final(self).watermark() == old(self).watermark(),
            old(self).watermark() <= old(self).log().len() ==> final(self).watermark()
                <= final(self).log().len(),
    {
        self.entries.push(line.to_owned());
        assert(views(self.entries@) =~= old(self).log().push(line@));
    }

    /// Adds the non-blank trimmed lines of a history file's `contents` and marks the
    /// whole log as saved.
    pub fn load(&mut self, contents: &str)
        ensures
            final(self).log() == old(self).log() + entries_in(fields(contents@, '\n')),
            final(self).watermark() <= final(self).log().len(),
            final(self).watermark() == final(self).log().len(),
    {
        let lines = split_char(contents, '\n');
        let ghost start = self.log();
        let mut i: usize = 0;
        assert(views(lines@).subrange(0, 0) =~= Seq::<Seq<char>>::empty());
        while i < lines.len()
            invariant
                i <= lines@.len(),
                views(lines@) == fields(contents@, '\n'),
                views(self.entries@) == start + entries_in(views(lines@).subrange(0, i as int)),
                self.last_flushed == old(self).last_flushed,
            decreases lines@.len() - i,
        {
            let ghost sub = views(lines@).subrange(0, i + 1);
            assert(sub.drop_last() =~= views(lines@).subrange(0, i as int));
            assert(sub.last() == lines@[i as int]@);
            let c = chars_of(lines[i].as_str());
            let t = trim_chars(&c);
            if t.len() > 0 {
                let n = t.len();
                let e = string_of(&t, 0, n);
                assert(t@.subrange(0, n as int) =~= t@);
                let ghost before = views(self.entries@);
                self.entries.push(e);
                assert(views(self.entries@) =~= before.push(e@));
            }
            i = i + 1;
        }
        assert(views(lines@).subrange(0, i as int) =~= views(lines@));
        self.last_flushed = self.entries.len();
    }

    /// Marks every entry as saved, after the log was written out.
    pub fn mark_flushed(&mut self)
        ensures
            final(self).log() == old(self).log(),
            final(self).watermark() == old(self).log().len(),
            final(self).watermark() <= final(self).log().len(),
    {
        self.last_flushed = self.entries.len();
    }

    /// The entries, in order.
    pub fn entries(&self) -> (r: Vec<String>)
        ensures
            views(r@) == self.log(),
    {
        let mut r: Vec<String> = Vec::new();
        let mut i: usize = 0;
        while i < self.entries.len()
            invariant
                i <= self.entries@.len(),
                views(r@) == views(self.entries@).subrange(0, i as int),
            decreases self.entries@.len() - i,
        {
            let ghost prev = r@;
            r.push(self.entries[i].clone());
            assert(views(r@) =~= views(prev).push(self.entries@[i as int]@));
            assert(views(r@) =~= views(self.entries@).subrange(0, i + 1));
            i = i + 1;
        }
        assert(views(self.entries@).subrange(0, i as int) =~= views(self.entries@));
        r
    }

    fn lines_from(&self, from: usize) -> (r: String)
        requires
            from <= self.log().len(),
        ensures
            r@ == as_lines(self.log().subrange(from as int, self.log().len() as int)),
    {
        let mut r = String::new();
        let mut i: usize = from;
        assert(self.log().subrange(from as int, from as int) =~= Seq::<Seq<char>>::empty());
        while i < self.entries.len()
            invariant
                from <= i <= self.entries@.len(),
                r@ == as_lines(self.log().subrange(from as int, i as int)),
            decreases self.entries@.len() - i,
        {
            let ghost sub = self.log().subrange(from as int, i + 1);
            assert(sub.drop_last() =~= self.log().subrange(from as int, i as int));
            push_all(&mut r, self.entries[i].as_str());
            r.push('\n');
            i = i + 1;
            assert(r@ =~= as_lines(sub));
        }
        r
    }

    /// The whole log as a history file holds it: one entry per line.
    pub fn write_all_text(&self) -> (r: String)
        ensures
            r@ == join(self.log(), seq!['\n']).push('\n'),
    {
        proof {
            reveal_strlit("\n");
            assert("\n"@ =~= seq!['\n']);
            assert(self.log().subrange(0, self.log().len() as int) =~= self.log());
        }
        let mut r = join_from(&self.entries, 0, "\n");
        r.push('\n');
        r
    }

    /// The text that appending the new entries writes, or nothing when none are new.
    pub fn append_new(&self) -> (r: Option<String>)
        ensures
            opt_text(r) == append_new_text(self.log(), self.watermark()),
    {
        if self.last_flushed < self.entries.len() {
            Some(self.lines_from(self.last_flushed))
        } else {
            None
        }
    }

    /// How to save the log at exit, given the history file's current `existing` text.
    pub fn exit_flush(&self, existing: &str) -> (r: ExitFlush)
        ensures
            existing@.len() == 0 ==> (r matches ExitFlush::WriteAll { text } && text@ == join(
                self.log(),
                seq!['\n'],
            ).push('\n')),
            existing@.len() > 0 ==> match append_new_text(self.log(), self.watermark()) {
                Some(t) => r matches ExitFlush::Append { text } && text@ == t,
                None => r is Nothing,
            },
    {
        if existing.unicode_len() == 0 {
            ExitFlush::WriteAll { text: self.write_all_text() }
        } else {
            match self.append_new() {
                Some(text) => ExitFlush::Append { text },
                None => ExitFlush::Nothing,
            }
        }
    }
}

pub open spec fn opt_text(o: Option<String>) -> Option<Seq<char>> {
    match o {
        Some(s) => Some(s@),
        None => None,
    }
}

/// Once the whole log has been written (the log unchanged, the watermark at its end, as
/// `mark_flushed` leaves it), appending the new entries writes nothing.
pub proof fn append_new_after_write_all(before: History, after: History)
    requires
        after.log() == before.log(),
        after.watermark() == before.log().len(),
    ensures
        append_new_text(after.log(), after.watermark()) is None,
{
}

} // verus!

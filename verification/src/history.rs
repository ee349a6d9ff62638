//! The history of accepted command lines, and what of it is read from and
//! written to a file.
//!
//! A history file holds one command on each line, each line ended by a line
//! feed.

use vstd::prelude::*;
use vstd::string::StringExecFns;
use crate::numbers::{decimal, push_right_justified, right_justified};
use crate::text::{is_blank, push_char, slice_to_string, split, split_on, str_equal, texts,
    to_chars, trim, trimmed};

verus! {

/// The text of a file that holds these entries: each entry and a line feed.
pub open spec fn file_text(entries: Seq<Seq<char>>) -> Seq<char>
    decreases entries.len(),
{
    if entries.len() == 0 {
        Seq::empty()
    } else {
        file_text(entries.drop_last()) + entries.last() + seq!['\n']
    }
}

/// A line without the carriage return at its end, if it has one.
pub open spec fn strip_cr(line: Seq<char>) -> Seq<char> {
    if line.len() > 0 && line.last() == '\r' {
        line.drop_last()
    } else {
        line
    }
}

/// The lines of a file: the pieces between its line feeds, where a carriage
/// return just before a line feed belongs to the line's end.
pub open spec fn file_lines(content: Seq<char>) -> Seq<Seq<char>> {
    let pieces = split_on(content, '\n');
    Seq::new(
        pieces.len(),
        |i: int|
            if i + 1 < pieces.len() {
                strip_cr(pieces[i])
            } else {
                pieces[i]
            },
    )
}

/// The entries that a history file holds: its lines, without those that are
/// empty or hold white space only.
pub open spec fn file_entries(content: Seq<char>) -> Seq<Seq<char>> {
    file_lines(content).filter(|line: Seq<char>| trim(line).len() > 0)
}

/// The entries from position `written` on; none where `written` is past the
/// end.
pub open spec fn unwritten(entries: Seq<Seq<char>>, written: nat) -> Seq<Seq<char>> {
    if written <= entries.len() {
        entries.skip(written as int)
    } else {
        Seq::empty()
    }
}

/// One line of the history listing: the number of the entry, counted from
/// one and right-justified in five columns, two spaces, the entry, and a
/// line feed.
pub open spec fn listing_line(index: nat, entry: Seq<char>) -> Seq<char> {
    right_justified(decimal(index + 1), 5) + seq![' ', ' '] + entry + seq!['\n']
}

/// The listing of the entries from `from` up to, not including, `upto`.
pub open spec fn listing(entries: Seq<Seq<char>>, from: nat, upto: nat) -> Seq<char>
    decreases upto,
{
    if upto <= from || upto > entries.len() {
        Seq::empty()
    } else {
        listing(entries, from, (upto - 1) as nat) + listing_line(
            (upto - 1) as nat,
            entries[upto - 1],
        )
    }
}

/// Where the listing of the last `count` of `total` entries begins.
pub open spec fn listing_start(total: nat, count: nat) -> nat {
    if count > total {
        0
    } else {
        (total - count) as nat
    }
}

/// The accepted command lines, in the order in which they were entered.
#[derive(Clone, Debug, PartialEq, Eq)]
pub struct History {
    entries: Vec<String>,
}

impl View for History {
    type V = Seq<Seq<char>>;

    closed spec fn view(&self) -> Seq<Seq<char>> {
        texts(self.entries@)
    }
}

impl History {
    /// An empty history.
    pub fn new() -> (history: History)
        ensures
            history@ == Seq::<Seq<char>>::empty(),
    {
        let history = History { entries: Vec::new() };
        assert(history@ =~= Seq::<Seq<char>>::empty());
        history
    }

    /// Adds an entry at the end.
    pub fn add(&mut self, entry: String)
        ensures
            final(self)@ == old(self)@.push(entry@),
    {
        self.entries.push(entry);
        assert(self@ =~= old(self)@.push(entry@));
    }

    /// The entry at position `n`, counted from zero.
    pub fn get(&self, n: usize) -> (entry: Option<&String>)
        ensures
            match entry {
                Some(e) => n < self@.len() && e@ == self@[n as int],
                None => n >= self@.len(),
            },
    {
        if n < self.entries.len() {
            Some(&self.entries[n])
        } else {
            None
        }
    }

    /// The number of entries.
    pub fn len(&self) -> (n: usize)
        ensures
            n == self@.len(),
    {
        self.entries.len()
    }

    /// Removes every entry.
    pub fn clear(&mut self)
        ensures
            final(self)@ == Seq::<Seq<char>>::empty(),
    {
        self.entries.clear();
        assert(self@ =~= Seq::<Seq<char>>::empty());
    }

    /// All entries, oldest first.
    pub fn all(&self) -> (entries: &Vec<String>)
        ensures
            texts(entries@) == self@,
    {
        &self.entries
    }

    /// Takes in a line that the user entered. A line that holds more than
    /// white space is accepted: its trimmed text becomes the newest entry.
    /// Any other line leaves the history as it is. The result tells whether
    /// the line was accepted.
    pub fn accept(&mut self, line: &str) -> (accepted: bool)
        ensures
            accepted == (trim(line@).len() > 0),
            accepted ==> final(self)@ == old(self)@.push(trim(line@)),
            !accepted ==> final(self)@ == old(self)@,
    {
        let entry = trimmed(line);
        if entry.as_str().is_empty() {
            false
        } else {
            self.add(entry);
            true
        }
    }

    /// Adds the entries that a history file holds: each of its lines that
    /// holds more than white space, as it stands.
    pub fn load(&mut self, content: &str)
        ensures
            final(self)@ == old(self)@ + file_entries(content@),
    {
        let pieces = split(content, '\n');
        let ghost keep = |line: Seq<char>| trim(line).len() > 0;
        let ghost lines = file_lines(content@);
        let mut i: usize = 0;
        assert(lines.take(0).filter(keep) == Seq::<Seq<char>>::empty()) by {
            reveal(Seq::filter);
        }
        assert(self@ == old(self)@ + lines.take(0).filter(keep));
        while i < pieces.len()
            invariant
                0 <= i <= pieces.len(),
                texts(pieces@) == split_on(content@, '\n'),
                lines == file_lines(content@),
                keep == |line: Seq<char>| trim(line).len() > 0,
                self@ == old(self)@ + lines.take(i as int).filter(keep),
            decreases pieces.len() - i,
        {
            assert(texts(pieces@)[i as int] == pieces@[i as int]@);
            let line = if i + 1 < pieces.len() {
                without_cr(pieces[i].as_str())
            } else {
                pieces[i].clone()
            };
            proof {
                reveal(Seq::filter);
                assert(lines.take(i + 1).drop_last() == lines.take(i as int));
                assert(lines.take(i + 1).last() == line@);
            }
            if !is_blank(line.as_str()) {
                let ghost before = self@;
                self.add(line);
                assert(old(self)@ + lines.take(i as int).filter(keep).push(line@) == before.push(
                    line@,
                ));
            }
            i += 1;
        }
        assert(lines.take(pieces.len() as int) == lines);
    }

    /// The text of the entries from position `from` on, as a history file
    /// holds them.
    pub fn text_from(&self, from: usize) -> (text: String)
        ensures
            text@ == file_text(unwritten(self@, from as nat)),
    {
        let mut text = String::new();
        if from > self.entries.len() {
            return text;
        }
        let ghost tail = self@.skip(from as int);
        let mut i: usize = from;
        assert(tail.take(0) == Seq::<Seq<char>>::empty());
        while i < self.entries.len()
            invariant
                from <= i <= self.entries.len(),
                tail == self@.skip(from as int),
                text@ == file_text(tail.take(i - from)),
            decreases self.entries.len() - i,
        {
            proof {
                assert(tail.take(i + 1 - from).drop_last() == tail.take(i - from));
                assert(tail.take(i + 1 - from).last() == self.entries@[i as int]@);
            }
            text.append(self.entries[i].as_str());
            push_char(&mut text, '\n');
            i += 1;
        }
        assert(tail.take(self.entries.len() - from) == tail);
        text
    }

    /// The text of a history file that holds every entry.
    pub fn file_text(&self) -> (text: String)
        ensures
            text@ == file_text(self@),
    {
        let text = self.text_from(0);
        assert(self@.skip(0) == self@);
        text
    }

    /// The listing of the entries from position `from` on, each with its
    /// number in the whole history.
    pub fn listing_from(&self, from: usize) -> (text: String)
        ensures
            text@ == listing(self@, from as nat, self@.len()),
    {
        let mut text = String::new();
        let mut i: usize = from;
        if from >= self.entries.len() {
            return text;
        }
        while i < self.entries.len()
            invariant
                from <= i <= self.entries.len(),
                text@ == listing(self@, from as nat, i as nat),
            decreases self.entries.len() - i,
        {
            let ghost before = text@;
            push_right_justified(&mut text, i + 1, 5);
            push_char(&mut text, ' ');
            push_char(&mut text, ' ');
            text.append(self.entries[i].as_str());
            push_char(&mut text, '\n');
            proof {
                let entry = self.entries@[i as int]@;
                assert(self@[i as int] == entry);
                assert(text@ == before + listing_line(i as nat, entry));
            }
            i += 1;
        }
        text
    }

    /// The listing of the last `count` entries, or of all where there are
    /// fewer.
    pub fn listing_of_last(&self, count: usize) -> (text: String)
        ensures
            text@ == listing(self@, listing_start(self@.len(), count as nat), self@.len()),
    {
        let total = self.entries.len();
        let from: usize = if count > total {
            0
        } else {
            total - count
        };
        self.listing_from(from)
    }
}

/// The text of `line` without the carriage return at its end, if it has one.
fn without_cr(line: &str) -> (out: String)
    ensures
        out@ == strip_cr(line@),
{
    let v = to_chars(line);
    if v.len() > 0 && v[v.len() - 1] == '\r' {
        let out = slice_to_string(&v, 0, v.len() - 1);
        assert(v@.subrange(0, v.len() - 1) == v@.drop_last());
        out
    } else {
        let out = slice_to_string(&v, 0, v.len());
        assert(v@.subrange(0, v.len() as int) == v@);
        out
    }
}

/// The mark of `path` in a list of marks: the count of the last pair that
/// names it, and zero where none does.
pub open spec fn mark_of(marks: Seq<(String, usize)>, path: Seq<char>) -> nat
    decreases marks.len(),
{
    if marks.len() == 0 {
        0
    } else if marks.last().0@ == path {
        marks.last().1 as nat
    } else {
        mark_of(marks.drop_last(), path)
    }
}

/// For each file, how many entries of the history have been appended to it.
#[derive(Clone, Debug)]
pub struct AppendMarks {
    marks: Vec<(String, usize)>,
}

impl AppendMarks {
    /// How many entries have been appended to the file at `path`.
    pub closed spec fn written(&self, path: Seq<char>) -> nat {
        mark_of(self.marks@, path)
    }

    /// No entry has been appended to any file.
    pub fn new() -> (marks: AppendMarks)
        ensures
            forall|path: Seq<char>| marks.written(path) == 0,
    {
        AppendMarks { marks: Vec::new() }
    }

    /// How many entries have been appended to the file at `path`.
    pub fn get(&self, path: &str) -> (count: usize)
        ensures
            count == self.written(path@),
    {
        let mut i: usize = self.marks.len();
        assert(self.marks@.take(i as int) == self.marks@);
        while i > 0
            invariant
                0 <= i <= self.marks.len(),
                mark_of(self.marks@.take(i as int), path@) == mark_of(self.marks@, path@),
            decreases i,
        {
            proof {
                assert(self.marks@.take(i as int).drop_last() == self.marks@.take(i - 1));
                assert(self.marks@.take(i as int).last() == self.marks@[i - 1]);
            }
            if str_equal(self.marks[i - 1].0.as_str(), path) {
                return self.marks[i - 1].1;
            }
            i -= 1;
        }
        0
    }

    /// Records that the first `count` entries have been appended to the file
    /// at `path`. The marks of other files stay.
    pub fn record(&mut self, path: &str, count: usize)
        ensures
            final(self).written(path@) == count,
            forall|other: Seq<char>| other != path@ ==> final(self).written(other) == old(
                self,
            ).written(other),
    {
        let ghost before = self.marks@;
        let mut i: usize = self.marks.len();
        while i > 0
            invariant
                0 <= i <= self.marks.len(),
                self.marks@ == before,
                old(self).marks@ == before,
                forall|k: int| i <= k < before.len() ==> (#[trigger] before[k]).0@ != path@,
            decreases i,
        {
            if str_equal(self.marks[i - 1].0.as_str(), path) {
                let entry = (String::from_str(path), count);
                self.marks.set(i - 1, entry);
                proof {
                    lemma_mark_replaced(before, i - 1, entry);
                    assert forall|other: Seq<char>| other != path@ implies self.written(other)
                        == old(self).written(other) by {
                        lemma_mark_kept(before, i - 1, entry, other);
                    }
                }
                return ;
            }
            i -= 1;
        }
        self.marks.push((String::from_str(path), count));
        assert(self.marks@.drop_last() == before);
    }
}

/// Replacing the last pair that names a file sets the mark of the file.
proof fn lemma_mark_replaced(marks: Seq<(String, usize)>, at: int, entry: (String, usize))
    requires
        0 <= at < marks.len(),
        forall|k: int| at < k < marks.len() ==> (#[trigger] marks[k]).0@ != entry.0@,
    ensures
        mark_of(marks.update(at, entry), entry.0@) == entry.1,
    decreases marks.len(),
{
    let updated = marks.update(at, entry);
    if at < marks.len() - 1 {
        assert(updated.last() == marks[marks.len() - 1]);
        assert(updated.drop_last() == marks.drop_last().update(at, entry));
        assert forall|k: int| at < k < marks.drop_last().len() implies (
        #[trigger] marks.drop_last()[k]).0@ != entry.0@ by {
            assert(marks.drop_last()[k] == marks[k]);
        }
        lemma_mark_replaced(marks.drop_last(), at, entry);
    }
}

/// Replacing a pair by one that names the same file keeps the marks of all
/// other files.
proof fn lemma_mark_kept(
    marks: Seq<(String, usize)>,
    at: int,
    entry: (String, usize),
    other: Seq<char>,
)
    requires
        0 <= at < marks.len(),
        marks[at].0@ == entry.0@,
        other != entry.0@,
    ensures
        mark_of(marks.update(at, entry), other) == mark_of(marks, other),
    decreases marks.len(),
{
    let updated = marks.update(at, entry);
    if at < marks.len() - 1 {
        assert(updated.last() == marks.last());
        assert(updated.drop_last() == marks.drop_last().update(at, entry));
        lemma_mark_kept(marks.drop_last(), at, entry, other);
    } else {
        assert(updated.drop_last() == marks.drop_last());
    }
}

impl History {
    /// The text that `history -a` appends to the file at `path`: the entries
    /// that no earlier append to this file has written.
    pub fn append_delta(&self, marks: &AppendMarks, path: &str) -> (text: String)
        ensures
            text@ == file_text(unwritten(self@, marks.written(path@))),
    {
        self.text_from(marks.get(path))
    }
}

/// Appending to the same file twice writes nothing the second time, and
/// after more entries it writes exactly those: once the whole of `entries`
/// is marked as written, nothing of it is unwritten, and of `entries`
/// followed by `more` exactly `more` is.
pub proof fn lemma_append_writes_only_new(entries: Seq<Seq<char>>, more: Seq<Seq<char>>)
    ensures
        file_text(unwritten(entries, entries.len())) == Seq::<char>::empty(),
        unwritten(entries + more, entries.len()) == more,
        unwritten(entries + more, entries.len()).len() == more.len(),
{
    assert(entries.skip(entries.len() as int) == Seq::<Seq<char>>::empty());
    assert((entries + more).skip(entries.len() as int) == more);
}

/// The text of a file has as many line feeds as entries were written and as
/// the entries hold themselves.
pub open spec fn line_feeds(text: Seq<char>) -> nat
    decreases text.len(),
{
    if text.len() == 0 {
        0
    } else {
        line_feeds(text.drop_last()) + if text.last() == '\n' {
            1nat
        } else {
            0nat
        }
    }
}

/// The text holds no line feed.
pub open spec fn one_line(s: Seq<char>) -> bool {
    forall|k: int| 0 <= k < s.len() ==> #[trigger] s[k] != '\n'
}

/// No entry holds a line feed.
pub open spec fn single_lines(entries: Seq<Seq<char>>) -> bool {
    forall|i: int| 0 <= i < entries.len() ==> one_line(#[trigger] entries[i])
}

proof fn lemma_line_feeds_concat(a: Seq<char>, b: Seq<char>)
    ensures
        line_feeds(a + b) == line_feeds(a) + line_feeds(b),
    decreases b.len(),
{
    if b.len() == 0 {
        assert(a + b == a);
    } else {
        lemma_line_feeds_concat(a, b.drop_last());
        assert((a + b).drop_last() == a + b.drop_last());
        assert((a + b).last() == b.last());
    }
}

proof fn lemma_no_line_feed(s: Seq<char>)
    requires
        one_line(s),
    ensures
        line_feeds(s) == 0,
    decreases s.len(),
{
    if s.len() > 0 {
        lemma_no_line_feed(s.drop_last());
    }
}

/// The text written for `k` entries of one line each is exactly `k` lines.
pub proof fn lemma_file_text_lines(entries: Seq<Seq<char>>)
    requires
        single_lines(entries),
    ensures
        line_feeds(file_text(entries)) == entries.len(),
    decreases entries.len(),
{
    if entries.len() > 0 {
        let head = entries.drop_last();
        assert(single_lines(head)) by {
            assert forall|i: int| 0 <= i < head.len() implies one_line(#[trigger] head[i]) by {
                assert(head[i] == entries[i]);
            }
        }
        lemma_file_text_lines(head);
        let last = entries.last();
        assert(last == entries[entries.len() - 1]);
        lemma_no_line_feed(last);
        lemma_line_feeds_concat(file_text(head), last);
        lemma_line_feeds_concat(file_text(head) + last, seq!['\n']);
        assert(line_feeds(seq!['\n']) == 1) by {
            assert(seq!['\n'].drop_last() == Seq::<char>::empty());
            assert(line_feeds(seq!['\n'].drop_last()) == 0);
        }
    }
}

} // verus!

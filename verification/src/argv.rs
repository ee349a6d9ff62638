//! The arguments handed to an external command.
//!
//! A word that no quote opened is passed on with its backslash escapes
//! removed. A word that a quote opened is passed on as it is if it names a
//! file or begins with a dash. If it does not, the shell looks for a file it
//! may have been meant to name: the word between single quotes or followed by
//! backslashes, then a file in the same directory whose name holds the word,
//! then the file in that directory whose name is nearest to it. What exists
//! is for the caller to find out; the library decides by the answers.

use vstd::prelude::*;
use vstd::string::StringExecFns;
use crate::distance::{edit_distance, levenshtein};
use crate::parser::{unescape, unescape_backslashes, QuoteType};
use crate::parser_laws::quoted;
use crate::text::{contains_seq, push_char, str_contains, texts, to_chars};

verus! {

/// The argument that was chosen: a text, or the directory entry with this
/// index.
#[derive(Clone, Debug, PartialEq, Eq)]
pub enum ArgumentChoice {
    Text(String),
    Entry(usize),
}

/// A chosen argument as a value of the model.
pub enum ChoiceView {
    Text(Seq<char>),
    Entry(int),
}

impl View for ArgumentChoice {
    type V = ChoiceView;

    open spec fn view(&self) -> ChoiceView {
        match self {
            ArgumentChoice::Text(s) => ChoiceView::Text(s@),
            ArgumentChoice::Entry(k) => ChoiceView::Entry(*k as int),
        }
    }
}

/// The five other spellings of a quoted word: between single quotes,
/// followed by one backslash, both, followed by two backslashes, both.
pub open spec fn variants(s: Seq<char>) -> Seq<Seq<char>> {
    seq![
        quoted(s),
        s.push('\\'),
        quoted(s.push('\\')),
        s.push('\\').push('\\'),
        quoted(s.push('\\').push('\\')),
    ]
}

/// The first of the first `count` flags that is set, if any. A flag that
/// is missing counts as one that is not set.
pub open spec fn first_set(flags: Seq<bool>, count: nat) -> Option<int>
    decreases count,
{
    if count == 0 {
        None
    } else {
        match first_set(flags, (count - 1) as nat) {
            Some(k) => Some(k),
            None => if count - 1 < flags.len() && flags[count - 1] {
                Some(count - 1)
            } else {
                None
            },
        }
    }
}

/// Whether the name of a directory entry holds the word, bare or between
/// single quotes.
pub open spec fn names_it(entry: Seq<char>, s: Seq<char>) -> bool {
    contains_seq(entry, s) || contains_seq(entry, quoted(s))
}

/// The first entry whose name holds the word, if any.
pub open spec fn first_naming(entries: Seq<Seq<char>>, s: Seq<char>) -> Option<int>
    decreases entries.len(),
{
    if entries.len() == 0 {
        None
    } else {
        match first_naming(entries.drop_last(), s) {
            Some(k) => Some(k),
            None => if names_it(entries.last(), s) {
                Some(entries.len() - 1)
            } else {
                None
            },
        }
    }
}

/// How far the name of an entry is from the word: the smaller of its edit
/// distances to the word and to the word between single quotes.
pub open spec fn score(entry: Seq<char>, s: Seq<char>) -> nat {
    let bare = edit_distance(entry, s);
    let wrapped = edit_distance(entry, quoted(s));
    if bare <= wrapped {
        bare
    } else {
        wrapped
    }
}

/// The entry nearest to the word: the first among those with the least
/// score. Zero where there is no entry.
pub open spec fn nearest(entries: Seq<Seq<char>>, s: Seq<char>) -> int
    decreases entries.len(),
{
    if entries.len() <= 1 {
        0
    } else {
        let k = nearest(entries.drop_last(), s);
        if score(entries.last(), s) < score(entries[k], s) {
            entries.len() - 1
        } else {
            k
        }
    }
}

/// The nearest entry is one of the entries, none has a smaller score, and
/// none before it has the same.
pub proof fn lemma_nearest_is_least(entries: Seq<Seq<char>>, s: Seq<char>)
    requires
        entries.len() > 0,
    ensures
        0 <= nearest(entries, s) < entries.len(),
        forall|j: int|
            0 <= j < entries.len() ==> score(entries[nearest(entries, s)], s) <= score(
                #[trigger] entries[j],
                s,
            ),
        forall|j: int|
            0 <= j < nearest(entries, s) ==> score(entries[nearest(entries, s)], s) < score(
                #[trigger] entries[j],
                s,
            ),
    decreases entries.len(),
{
    if entries.len() > 1 {
        let head = entries.drop_last();
        lemma_nearest_is_least(head, s);
        let k = nearest(head, s);
        assert(head[k] == entries[k]);
        assert forall|j: int| 0 <= j < entries.len() implies score(
            entries[nearest(entries, s)],
            s,
        ) <= score(#[trigger] entries[j], s) by {
            if j < head.len() {
                assert(head[j] == entries[j]);
            }
        }
        assert forall|j: int| 0 <= j < nearest(entries, s) implies score(
            entries[nearest(entries, s)],
            s,
        ) < score(#[trigger] entries[j], s) by {
            assert(head[j] == entries[j]);
        }
    }
}

/// The argument to pass for a word, given what the caller found: whether
/// the word names a file, which of its variants do, and the names of the
/// entries of the directory it would lie in.
pub open spec fn choice_of(
    text: Seq<char>,
    quote: QuoteType,
    present: bool,
    variant_exists: Seq<bool>,
    entries: Seq<Seq<char>>,
) -> ChoiceView {
    if quote == QuoteType::Unquoted {
        ChoiceView::Text(unescape(text))
    } else if present || is_option(text) {
        ChoiceView::Text(text)
    } else {
        match first_set(variant_exists, 5) {
            Some(k) => ChoiceView::Text(variants(text)[k]),
            None => match first_naming(entries, text) {
                Some(k) => ChoiceView::Entry(k),
                None => if entries.len() > 0 {
                    ChoiceView::Entry(nearest(entries, text))
                } else {
                    ChoiceView::Text(text)
                },
            },
        }
    }
}

/// Whether the word begins with a dash, as an option does.
pub open spec fn is_option(text: Seq<char>) -> bool {
    text.len() > 0 && text[0] == '-'
}

/// Whether the choice for a word depends on whether the word names a file:
/// it does for a word that a quote opened and that is no option.
pub open spec fn wants_presence(text: Seq<char>, quote: QuoteType) -> bool {
    quote != QuoteType::Unquoted && !is_option(text)
}

/// Whether the choice for a word depends on which of its variants name a
/// file: it does where it depends on the word itself naming one, and the
/// word names none.
pub open spec fn wants_variants(text: Seq<char>, quote: QuoteType, present: bool) -> bool {
    wants_presence(text, quote) && !present
}

/// Whether the choice for a word depends on the entries of its directory:
/// it does where it depends on the variants, and none of them names a file.
pub open spec fn wants_entries(
    text: Seq<char>,
    quote: QuoteType,
    present: bool,
    variant_exists: Seq<bool>,
) -> bool {
    wants_variants(text, quote, present) && first_set(variant_exists, 5) is None
}

/// An answer that is not wanted does not change the choice: whatever is
/// handed over in its place, the same argument is chosen.
pub proof fn lemma_unwanted_answers(
    text: Seq<char>,
    quote: QuoteType,
    present: bool,
    variant_exists: Seq<bool>,
    entries: Seq<Seq<char>>,
    other_present: bool,
    other_variants: Seq<bool>,
    other_entries: Seq<Seq<char>>,
)
    ensures
        !wants_presence(text, quote) ==> choice_of(text, quote, present, variant_exists, entries)
            == choice_of(text, quote, other_present, other_variants, other_entries),
        !wants_variants(text, quote, present) ==> choice_of(
            text,
            quote,
            present,
            variant_exists,
            entries,
        ) == choice_of(text, quote, present, other_variants, other_entries),
        !wants_entries(text, quote, present, variant_exists) ==> choice_of(
            text,
            quote,
            present,
            variant_exists,
            entries,
        ) == choice_of(text, quote, present, variant_exists, other_entries),
{
}

/// Whether the caller has to find out if the word names a file.
pub fn needs_presence(text: &str, quote: QuoteType) -> (needed: bool)
    ensures
        needed == wants_presence(text@, quote),
{
    match quote {
        QuoteType::Unquoted => false,
        _ => {
            let v = to_chars(text);
            !(v.len() > 0 && v[0] == '-')
        },
    }
}

/// Whether the caller has to find out which variants of the word name a
/// file, given whether the word itself does.
pub fn needs_variants(text: &str, quote: QuoteType, present: bool) -> (needed: bool)
    ensures
        needed == wants_variants(text@, quote, present),
{
    needs_presence(text, quote) && !present
}

/// Whether the caller has to read the directory that the word would lie
/// in, given what it found out so far.
pub fn needs_entries(text: &str, quote: QuoteType, present: bool, variant_exists: &Vec<bool>) -> (needed:
    bool)
    ensures
        needed == wants_entries(text@, quote, present, variant_exists@),
{
    needs_variants(text, quote, present) && first_flag(variant_exists, 5).is_none()
}

/// The text between single quotes.
pub fn single_quoted(s: &str) -> (out: String)
    ensures
        out@ == quoted(s@),
{
    let mut out = String::new();
    push_char(&mut out, '\'');
    out.append(s);
    push_char(&mut out, '\'');
    assert(out@ == seq!['\''] + s@ + seq!['\'']);
    out
}

/// The five other spellings of a quoted word, in the order in which they
/// are tried.
pub fn quoted_variants(s: &str) -> (out: Vec<String>)
    ensures
        texts(out@) == variants(s@),
{
    let mut one = String::from_str(s);
    push_char(&mut one, '\\');
    let mut two = one.clone();
    push_char(&mut two, '\\');
    let mut out: Vec<String> = Vec::new();
    out.push(single_quoted(s));
    out.push(one.clone());
    out.push(single_quoted(one.as_str()));
    out.push(two.clone());
    out.push(single_quoted(two.as_str()));
    assert(texts(out@) =~= variants(s@));
    out
}

/// The first flag that is set among the first `count`, if any.
pub fn first_flag(flags: &Vec<bool>, count: usize) -> (found: Option<usize>)
    ensures
        match first_set(flags@, count as nat) {
            Some(k) => found == Some(k as usize) && 0 <= k < count && k < flags.len(),
            None => found is None,
        },
{
    let mut i: usize = 0;
    while i < count
        invariant
            0 <= i <= count,
            first_set(flags@, i as nat) is None,
        decreases count - i,
    {
        if i < flags.len() && flags[i] {
            proof {
                lemma_first_set_stays(flags@, (i + 1) as nat, count as nat);
            }
            return Some(i);
        }
        i += 1;
    }
    None
}

/// The first set flag below a count is the first set flag below any larger
/// count.
proof fn lemma_first_set_stays(flags: Seq<bool>, upto: nat, count: nat)
    requires
        upto <= count,
        first_set(flags, upto) is Some,
    ensures
        first_set(flags, count) == first_set(flags, upto),
    decreases count - upto,
{
    if upto < count {
        lemma_first_set_stays(flags, upto, (count - 1) as nat);
    }
}

/// The first naming entry of a beginning is that of the whole.
proof fn lemma_first_naming_stays(entries: Seq<Seq<char>>, s: Seq<char>, upto: int)
    requires
        0 <= upto <= entries.len(),
        first_naming(entries.take(upto), s) is Some,
    ensures
        first_naming(entries, s) == first_naming(entries.take(upto), s),
    decreases entries.len() - upto,
{
    if upto < entries.len() {
        assert(entries.take(upto + 1).drop_last() == entries.take(upto));
        lemma_first_naming_stays(entries, s, upto + 1);
    } else {
        assert(entries.take(upto) == entries);
    }
}

/// The first entry whose name holds the word, bare or between single quotes.
pub fn first_naming_entry(entries: &Vec<String>, s: &str) -> (found: Option<usize>)
    ensures
        match first_naming(texts(entries@), s@) {
            Some(k) => found == Some(k as usize) && 0 <= k < entries.len(),
            None => found is None,
        },
{
    let wrapped = single_quoted(s);
    let ghost names = texts(entries@);
    let mut i: usize = 0;
    while i < entries.len()
        invariant
            0 <= i <= entries.len(),
            names == texts(entries@),
            wrapped@ == quoted(s@),
            first_naming(names.take(i as int), s@) is None,
        decreases entries.len() - i,
    {
        proof {
            assert(names.take(i + 1).drop_last() == names.take(i as int));
            assert(names.take(i + 1).last() == entries@[i as int]@);
        }
        if str_contains(entries[i].as_str(), s) || str_contains(
            entries[i].as_str(),
            wrapped.as_str(),
        ) {
            proof {
                lemma_first_naming_stays(names, s@, i + 1);
            }
            return Some(i);
        }
        i += 1;
    }
    assert(names.take(entries.len() as int) == names);
    None
}

/// How far the name of an entry is from the word, whose quoted form is at
/// hand.
fn entry_score(entry: &str, s: &str, wrapped: &str) -> (d: usize)
    requires
        wrapped@ == quoted(s@),
    ensures
        d == score(entry@, s@),
{
    let bare = levenshtein(entry, s);
    let other = levenshtein(entry, wrapped);
    if bare <= other {
        bare
    } else {
        other
    }
}

/// The entry nearest to the word, if there is any entry.
pub fn nearest_entry(entries: &Vec<String>, s: &str) -> (found: Option<usize>)
    ensures
        match found {
            Some(k) => k < entries.len() && k == nearest(texts(entries@), s@),
            None => entries.len() == 0,
        },
{
    if entries.len() == 0 {
        return None;
    }
    let wrapped = single_quoted(s);
    let ghost names = texts(entries@);
    let mut best: usize = 0;
    let mut best_score = entry_score(entries[0].as_str(), s, wrapped.as_str());
    let mut i: usize = 1;
    assert(names.take(1).len() == 1);
    while i < entries.len()
        invariant
            1 <= i <= entries.len(),
            names == texts(entries@),
            wrapped@ == quoted(s@),
            best == nearest(names.take(i as int), s@),
            0 <= best < i,
            best_score == score(names[best as int], s@),
        decreases entries.len() - i,
    {
        proof {
            assert(names.take(i + 1).drop_last() == names.take(i as int));
            assert(names.take(i + 1).last() == entries@[i as int]@);
            assert(names.take(i + 1)[best as int] == names[best as int]);
        }
        let d = entry_score(entries[i].as_str(), s, wrapped.as_str());
        if d < best_score {
            best = i;
            best_score = d;
        }
        i += 1;
    }
    assert(names.take(entries.len() as int) == names);
    Some(best)
}

/// Chooses the argument to pass for a word. `present` tells whether the word
/// names a file, `variant_exists` which of its `quoted_variants` do, and
/// `entries` holds the names in the directory the word would lie in.
pub fn choose_argument(
    text: &str,
    quote: QuoteType,
    present: bool,
    variant_exists: &Vec<bool>,
    entries: &Vec<String>,
) -> (choice: ArgumentChoice)
    ensures
        choice@ == choice_of(text@, quote, present, variant_exists@, texts(entries@)),
{
    match quote {
        QuoteType::Unquoted => {
            return ArgumentChoice::Text(unescape_backslashes(text));
        },
        _ => {},
    }
    let v = to_chars(text);
    if present || (v.len() > 0 && v[0] == '-') {
        return ArgumentChoice::Text(String::from_str(text));
    }
    match first_flag(variant_exists, 5) {
        Some(k) => {
            let spellings = quoted_variants(text);
            assert(texts(spellings@).len() == 5);
            assert(texts(spellings@)[k as int] == spellings@[k as int]@);
            ArgumentChoice::Text(spellings[k].clone())
        },
        None => match first_naming_entry(entries, text) {
            Some(k) => ArgumentChoice::Entry(k),
            None => match nearest_entry(entries, text) {
                Some(k) => ArgumentChoice::Entry(k),
                None => ArgumentChoice::Text(String::from_str(text)),
            },
        },
    }
}

} // verus!

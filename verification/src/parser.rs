//! Word splitting with quoting and escapes, and the splitting of a line into
//! pipeline stages.
//!
//! Both read a line one character at a time and share one view of quoting:
//! the mode in which each character is read.

use vstd::prelude::*;
use crate::text::{is_space, is_whitespace, push_char, slice_to_string, texts, to_chars, trim,
    trim_bounds};

verus! {

/// How a word was opened: by a single quote, by a double quote, or by
/// neither.
#[derive(Clone, Copy, PartialEq, Eq, Debug, Structural)]
pub enum QuoteType {
    Unquoted,
    Single,
    Double,
}

/// The quoting in force when the next character is read.
#[derive(Clone, Copy, PartialEq, Eq, Debug, Structural)]
pub enum LexMode {
    /// Outside quotes.
    Normal,
    /// Outside quotes, just after a backslash.
    NormalEscape,
    /// Inside single quotes.
    Single,
    /// Inside double quotes.
    Double,
    /// Inside double quotes, just after a backslash.
    DoubleEscape,
}

/// The mode after reading `c` in mode `mode`.
pub open spec fn mode_step(mode: LexMode, c: char) -> LexMode {
    match mode {
        LexMode::Normal => if c == '\'' {
            LexMode::Single
        } else if c == '"' {
            LexMode::Double
        } else if c == '\\' {
            LexMode::NormalEscape
        } else {
            LexMode::Normal
        },
        LexMode::NormalEscape => LexMode::Normal,
        LexMode::Single => if c == '\'' {
            LexMode::Normal
        } else {
            LexMode::Single
        },
        LexMode::Double => if c == '"' {
            LexMode::Normal
        } else if c == '\\' {
            LexMode::DoubleEscape
        } else {
            LexMode::Double
        },
        LexMode::DoubleEscape => LexMode::Double,
    }
}

/// The mode after reading all of `s`, starting in `mode`.
pub open spec fn mode_run(mode: LexMode, s: Seq<char>) -> LexMode
    decreases s.len(),
{
    if s.len() == 0 {
        mode
    } else {
        mode_step(mode_run(mode, s.drop_last()), s.last())
    }
}

/// The characters that a backslash inside double quotes gives up its place to.
pub open spec fn double_escapable(c: char) -> bool {
    c == '\\' || c == '"' || c == '$' || c == '\''
}

/// The word splitter between two characters: the words finished so far, the
/// word being gathered, how that word was opened, and the mode.
#[verifier::ext_equal]
pub struct Lexer {
    pub words: Seq<(Seq<char>, QuoteType)>,
    pub cur: Seq<char>,
    pub tag: QuoteType,
    pub mode: LexMode,
}

/// The splitter before the first character.
pub open spec fn lex_start() -> Lexer {
    Lexer { words: Seq::empty(), cur: Seq::empty(), tag: QuoteType::Unquoted, mode: LexMode::Normal }
}

/// The tag of the current word once a quote of kind `q` opens: the quote
/// names the word only if nothing was gathered before it. White space
/// between words takes the tag back, so that empty quotes that stand alone
/// name no later word.
pub open spec fn opened_tag(st: Lexer, q: QuoteType) -> QuoteType {
    if st.cur.len() == 0 {
        q
    } else {
        st.tag
    }
}

/// The splitter after reading `c`.
pub open spec fn lex_step(st: Lexer, c: char) -> Lexer {
    let mode = mode_step(st.mode, c);
    match st.mode {
        LexMode::Normal => if c == '\'' {
            Lexer { tag: opened_tag(st, QuoteType::Single), mode, ..st }
        } else if c == '"' {
            Lexer { tag: opened_tag(st, QuoteType::Double), mode, ..st }
        } else if c == '\\' {
            Lexer { mode, ..st }
        } else if is_space(c) {
            if st.cur.len() > 0 {
                Lexer {
                    words: st.words.push((st.cur, st.tag)),
                    cur: Seq::empty(),
                    tag: QuoteType::Unquoted,
                    mode,
                }
            } else {
                Lexer { tag: QuoteType::Unquoted, ..st }
            }
        } else {
            Lexer { cur: st.cur.push(c), mode, ..st }
        },
        LexMode::NormalEscape => Lexer { cur: st.cur.push(c), mode, ..st },
        LexMode::Single => if c == '\'' {
            Lexer { mode, ..st }
        } else {
            Lexer { cur: st.cur.push(c), mode, ..st }
        },
        LexMode::Double => if c == '"' || c == '\\' {
            Lexer { mode, ..st }
        } else {
            Lexer { cur: st.cur.push(c), mode, ..st }
        },
        LexMode::DoubleEscape => if double_escapable(c) {
            Lexer { cur: st.cur.push(c), mode, ..st }
        } else {
            Lexer { cur: st.cur.push('\\').push(c), mode, ..st }
        },
    }
}

/// The splitter after reading all of `s`.
pub open spec fn lex_run(st: Lexer, s: Seq<char>) -> Lexer
    decreases s.len(),
{
    if s.len() == 0 {
        st
    } else {
        lex_step(lex_run(st, s.drop_last()), s.last())
    }
}

/// The words once the input has ended. An open quote is closed silently; a
/// backslash left hanging inside double quotes stands for itself, one left
/// hanging outside quotes is dropped.
pub open spec fn lex_finish(st: Lexer) -> Seq<(Seq<char>, QuoteType)> {
    let cur = if st.mode == LexMode::DoubleEscape {
        st.cur.push('\\')
    } else {
        st.cur
    };
    if cur.len() > 0 {
        st.words.push((cur, st.tag))
    } else {
        st.words
    }
}

/// The words of a line, each with the way it was opened.
pub open spec fn tokenize(line: Seq<char>) -> Seq<(Seq<char>, QuoteType)> {
    lex_finish(lex_run(lex_start(), line))
}

/// The texts of tagged words.
pub open spec fn word_texts(words: Seq<(Seq<char>, QuoteType)>) -> Seq<Seq<char>> {
    Seq::new(words.len(), |i: int| words[i].0)
}

/// The views of tagged words.
pub open spec fn words_view(v: Seq<(String, QuoteType)>) -> Seq<(Seq<char>, QuoteType)> {
    Seq::new(v.len(), |i: int| (v[i].0@, v[i].1))
}

/// The splitter that holds the given words and current word.
pub open spec fn lexer_at(
    words: Seq<(String, QuoteType)>,
    cur: Seq<char>,
    tag: QuoteType,
    mode: LexMode,
) -> Lexer {
    Lexer { words: words_view(words), cur, tag, mode }
}

/// Splits a line into words as a POSIX shell does: white space separates
/// words outside quotes, single quotes keep everything literally, double
/// quotes keep everything but let a backslash escape `\`, `"`, `$` and `'`,
/// and a backslash outside quotes makes the next character literal. Each word
/// carries the kind of quote that opened it.
pub fn shell_split_shell_like(line: &str) -> (tokens: Vec<(String, QuoteType)>)
    ensures
        words_view(tokens@) == tokenize(line@),
{
    let v = to_chars(line);
    let mut tokens: Vec<(String, QuoteType)> = Vec::new();
    let mut cur = String::new();
    let mut tag = QuoteType::Unquoted;
    let mut mode = LexMode::Normal;
    let mut i: usize = 0;
    while i < v.len()
        invariant
            0 <= i <= v.len(),
            v@ == line@,
            lexer_at(tokens@, cur@, tag, mode) == lex_run(lex_start(), v@.take(i as int)),
        decreases v.len() - i,
    {
        let c = v[i];
        let ghost before = lexer_at(tokens@, cur@, tag, mode);
        proof {
            assert(v@.take(i + 1).drop_last() == v@.take(i as int));
            assert(v@.take(i + 1).last() == c);
        }
        match mode {
            LexMode::Normal => {
                if c == '\'' {
                    if cur.as_str().is_empty() {
                        tag = QuoteType::Single;
                    }
                    mode = LexMode::Single;
                } else if c == '"' {
                    if cur.as_str().is_empty() {
                        tag = QuoteType::Double;
                    }
                    mode = LexMode::Double;
                } else if c == '\\' {
                    mode = LexMode::NormalEscape;
                } else if is_whitespace(c) {
                    if !cur.as_str().is_empty() {
                        let ghost old_tokens = tokens@;
                        tokens.push((cur, tag));
                        assert(words_view(tokens@) == words_view(old_tokens).push(
                            (before.cur, before.tag),
                        ));
                        cur = String::new();
                    }
                    tag = QuoteType::Unquoted;
                } else {
                    push_char(&mut cur, c);
                }
            },
            LexMode::NormalEscape => {
                push_char(&mut cur, c);
                mode = LexMode::Normal;
            },
            LexMode::Single => {
                if c == '\'' {
                    mode = LexMode::Normal;
                } else {
                    push_char(&mut cur, c);
                }
            },
            LexMode::Double => {
                if c == '"' {
                    mode = LexMode::Normal;
                } else if c == '\\' {
                    mode = LexMode::DoubleEscape;
                } else {
                    push_char(&mut cur, c);
                }
            },
            LexMode::DoubleEscape => {
                if c == '\\' || c == '"' || c == '$' || c == '\'' {
                    push_char(&mut cur, c);
                } else {
                    push_char(&mut cur, '\\');
                    push_char(&mut cur, c);
                }
                mode = LexMode::Double;
            },
        }
        assert(lexer_at(tokens@, cur@, tag, mode) == lex_step(before, c));
        i += 1;
    }
    assert(v@.take(v.len() as int) == v@);
    if let LexMode::DoubleEscape = mode {
        push_char(&mut cur, '\\');
    }
    if !cur.as_str().is_empty() {
        let ghost old_tokens = tokens@;
        let ghost last = (cur@, tag);
        tokens.push((cur, tag));
        assert(words_view(tokens@) == words_view(old_tokens).push(last));
    }
    tokens
}

/// The literal splitter between two characters: the words finished so far,
/// the word being gathered, and whether a backslash was just read.
#[verifier::ext_equal]
pub struct Splitter {
    pub words: Seq<Seq<char>>,
    pub cur: Seq<char>,
    pub escaped: bool,
}

/// The literal splitter before the first character.
pub open spec fn literal_start() -> Splitter {
    Splitter { words: Seq::empty(), cur: Seq::empty(), escaped: false }
}

/// The literal splitter after reading `c`.
pub open spec fn literal_step(st: Splitter, c: char) -> Splitter {
    if st.escaped {
        Splitter { cur: st.cur.push(c), escaped: false, ..st }
    } else if c == '\\' {
        Splitter { escaped: true, ..st }
    } else if is_space(c) {
        if st.cur.len() > 0 {
            Splitter { words: st.words.push(st.cur), cur: Seq::empty(), escaped: false }
        } else {
            st
        }
    } else {
        Splitter { cur: st.cur.push(c), ..st }
    }
}

/// The literal splitter after reading all of `s`.
pub open spec fn literal_run(st: Splitter, s: Seq<char>) -> Splitter
    decreases s.len(),
{
    if s.len() == 0 {
        st
    } else {
        literal_step(literal_run(st, s.drop_last()), s.last())
    }
}

/// The words once the input has ended; a backslash left hanging is dropped.
pub open spec fn literal_finish(st: Splitter) -> Seq<Seq<char>> {
    if st.cur.len() > 0 {
        st.words.push(st.cur)
    } else {
        st.words
    }
}

/// The words of a line in which quotes are ordinary characters.
pub open spec fn split_literal(line: Seq<char>) -> Seq<Seq<char>> {
    literal_finish(literal_run(literal_start(), line))
}

/// The splitter that holds the given words and current word.
pub open spec fn splitter_at(words: Seq<String>, cur: Seq<char>, escaped: bool) -> Splitter {
    Splitter { words: texts(words), cur, escaped }
}

/// Splits a line into words at white space, with quotes as ordinary
/// characters: only a backslash is special, and makes the next character
/// literal.
pub fn shell_split_literal(line: &str) -> (tokens: Vec<String>)
    ensures
        texts(tokens@) == split_literal(line@),
{
    let v = to_chars(line);
    let mut tokens: Vec<String> = Vec::new();
    let mut cur = String::new();
    let mut escaped = false;
    let mut i: usize = 0;
    while i < v.len()
        invariant
            0 <= i <= v.len(),
            v@ == line@,
            splitter_at(tokens@, cur@, escaped) == literal_run(literal_start(), v@.take(i as int)),
        decreases v.len() - i,
    {
        let c = v[i];
        let ghost before = splitter_at(tokens@, cur@, escaped);
        proof {
            assert(v@.take(i + 1).drop_last() == v@.take(i as int));
            assert(v@.take(i + 1).last() == c);
        }
        if escaped {
            push_char(&mut cur, c);
            escaped = false;
        } else if c == '\\' {
            escaped = true;
        } else if is_whitespace(c) {
            if !cur.as_str().is_empty() {
                let ghost old_tokens = tokens@;
                tokens.push(cur);
                assert(texts(tokens@) == texts(old_tokens).push(before.cur));
                cur = String::new();
            }
        } else {
            push_char(&mut cur, c);
        }
        assert(splitter_at(tokens@, cur@, escaped) == literal_step(before, c));
        i += 1;
    }
    assert(v@.take(v.len() as int) == v@);
    if !cur.as_str().is_empty() {
        let ghost old_tokens = tokens@;
        let ghost last = cur@;
        tokens.push(cur);
        assert(texts(tokens@) == texts(old_tokens).push(last));
    }
    tokens
}

/// The characters before which `unescape` drops a backslash.
pub open spec fn drops_backslash(c: char) -> bool {
    c == ' ' || c == '\\' || c == '\t' || c == '\n' || c == '\''
}

/// `s` with each backslash that stands before a space, a backslash, a tab, a
/// newline or a single quote removed. A backslash before anything else, or at
/// the end, stays; the character after a backslash is never read as one.
pub open spec fn unescape(s: Seq<char>) -> Seq<char>
    decreases s.len(),
{
    if s.len() == 0 {
        Seq::empty()
    } else if s[0] != '\\' {
        seq![s[0]] + unescape(s.skip(1))
    } else if s.len() == 1 {
        seq!['\\']
    } else if drops_backslash(s[1]) {
        seq![s[1]] + unescape(s.skip(2))
    } else {
        seq!['\\', s[1]] + unescape(s.skip(2))
    }
}

/// Removes the backslashes that escape a space, a backslash, a tab, a newline
/// or a single quote, and keeps every other character.
pub fn unescape_backslashes(s: &str) -> (result: String)
    ensures
        result@ == unescape(s@),
{
    let v = to_chars(s);
    let mut result = String::new();
    let mut i: usize = 0;
    assert(v@.skip(0) == v@);
    assert(result@ + unescape(v@) == unescape(v@));
    while i < v.len()
        invariant
            0 <= i <= v.len(),
            v@ == s@,
            result@ + unescape(v@.skip(i as int)) == unescape(v@),
        decreases v.len() - i,
    {
        let c = v[i];
        let ghost rest = v@.skip(i as int);
        let ghost before = result@;
        proof {
            assert(rest[0] == c);
            assert(rest.skip(1) == v@.skip(i + 1));
        }
        if c != '\\' {
            push_char(&mut result, c);
            assert(result@ + unescape(v@.skip(i + 1)) == before + unescape(rest));
            i += 1;
        } else if i + 1 < v.len() {
            let next = v[i + 1];
            proof {
                assert(rest[1] == next);
                assert(rest.skip(2) == v@.skip(i + 2));
            }
            if next == ' ' || next == '\\' || next == '\t' || next == '\n' || next == '\'' {
                push_char(&mut result, next);
            } else {
                push_char(&mut result, '\\');
                push_char(&mut result, next);
            }
            assert(result@ + unescape(v@.skip(i + 2)) == before + unescape(rest));
            i += 2;
        } else {
            push_char(&mut result, '\\');
            assert(v@.skip(i + 1).len() == 0);
            assert(result@ + unescape(v@.skip(i + 1)) == before + unescape(rest));
            i += 1;
        }
    }
    assert(v@.skip(v.len() as int).len() == 0);
    result
}

/// The pipeline cutter between two characters: the segments finished so far,
/// the segment being gathered, and the mode.
#[verifier::ext_equal]
pub struct Cutter {
    pub done: Seq<Seq<char>>,
    pub cur: Seq<char>,
    pub mode: LexMode,
}

/// The cutter before the first character.
pub open spec fn cut_start() -> Cutter {
    Cutter { done: Seq::empty(), cur: Seq::empty(), mode: LexMode::Normal }
}

/// Whether a character read in mode `mode` stands outside single and double
/// quotes.
pub open spec fn outside_quotes(mode: LexMode) -> bool {
    mode == LexMode::Normal || mode == LexMode::NormalEscape
}

/// Whether `c`, read in mode `mode`, is a pipe operator: a bar outside
/// single and double quotes. A backslash before the bar does not change
/// that; a backslash only keeps a quote from opening or closing.
pub open spec fn is_pipe(mode: LexMode, c: char) -> bool {
    outside_quotes(mode) && c == '|'
}

/// The cutter after reading `c`.
pub open spec fn cut_step(st: Cutter, c: char) -> Cutter {
    if is_pipe(st.mode, c) {
        Cutter { done: st.done.push(st.cur), cur: Seq::empty(), mode: LexMode::Normal }
    } else {
        Cutter { cur: st.cur.push(c), mode: mode_step(st.mode, c), ..st }
    }
}

/// The cutter after reading all of `s`.
pub open spec fn cut_run(st: Cutter, s: Seq<char>) -> Cutter
    decreases s.len(),
{
    if s.len() == 0 {
        st
    } else {
        cut_step(cut_run(st, s.drop_last()), s.last())
    }
}

/// The pieces of a line between its pipe operators, as written.
pub open spec fn segments(line: Seq<char>) -> Seq<Seq<char>> {
    let st = cut_run(cut_start(), line);
    st.done.push(st.cur)
}

/// The pieces of a line between its pipe operators, each trimmed.
pub open spec fn trimmed_segments(line: Seq<char>) -> Seq<Seq<char>> {
    Seq::new(segments(line).len(), |i: int| trim(segments(line)[i]))
}

/// The stages of a line: its trimmed segments that are not empty.
pub open spec fn pipeline_stages(line: Seq<char>) -> Seq<Seq<char>> {
    trimmed_segments(line).filter(|s: Seq<char>| s.len() > 0)
}

/// The trimmed text of `cur`, as a string.
fn trimmed_segment(cur: &Vec<char>) -> (out: String)
    ensures
        out@ == trim(cur@),
{
    let (a, b) = trim_bounds(cur);
    slice_to_string(cur, a, b)
}

/// Cuts a line at its pipe operators and trims each piece. Every bar outside
/// single and double quotes is an operator, also one behind a backslash; a
/// quote behind a backslash neither opens nor closes. Empty pieces are kept,
/// so the result has one more element than the line has operators.
pub fn pipeline_segments(line: &str) -> (out: Vec<String>)
    ensures
        texts(out@) == trimmed_segments(line@),
{
    let v = to_chars(line);
    let mut out: Vec<String> = Vec::new();
    let mut cur: Vec<char> = Vec::new();
    let mut mode = LexMode::Normal;
    let mut i: usize = 0;
    while i < v.len()
        invariant
            0 <= i <= v.len(),
            v@ == line@,
            cur@ == cut_run(cut_start(), v@.take(i as int)).cur,
            mode == cut_run(cut_start(), v@.take(i as int)).mode,
            out@.len() == cut_run(cut_start(), v@.take(i as int)).done.len(),
            forall|k: int|
                0 <= k < out@.len() ==> (#[trigger] out@[k])@ == trim(
                    cut_run(cut_start(), v@.take(i as int)).done[k],
                ),
        decreases v.len() - i,
    {
        let c = v[i];
        proof {
            assert(v@.take(i + 1).drop_last() == v@.take(i as int));
            assert(v@.take(i + 1).last() == c);
        }
        match mode {
            LexMode::Normal => {
                if c == '|' {
                    let piece = trimmed_segment(&cur);
                    out.push(piece);
                    cur = Vec::new();
                } else {
                    cur.push(c);
                    if c == '\'' {
                        mode = LexMode::Single;
                    } else if c == '"' {
                        mode = LexMode::Double;
                    } else if c == '\\' {
                        mode = LexMode::NormalEscape;
                    }
                }
            },
            LexMode::NormalEscape => {
                if c == '|' {
                    let piece = trimmed_segment(&cur);
                    out.push(piece);
                    cur = Vec::new();
                } else {
                    cur.push(c);
                }
                mode = LexMode::Normal;
            },
            LexMode::Single => {
                cur.push(c);
                if c == '\'' {
                    mode = LexMode::Normal;
                }
            },
            LexMode::Double => {
                cur.push(c);
                if c == '"' {
                    mode = LexMode::Normal;
                } else if c == '\\' {
                    mode = LexMode::DoubleEscape;
                }
            },
            LexMode::DoubleEscape => {
                cur.push(c);
                mode = LexMode::Double;
            },
        }
        i += 1;
    }
    assert(v@.take(v.len() as int) == v@);
    let piece = trimmed_segment(&cur);
    out.push(piece);
    assert(texts(out@) =~= trimmed_segments(line@));
    out
}

/// Splits a line into its pipeline stages: the pieces between pipe
/// operators, each trimmed, without the empty ones. Every bar outside single
/// and double quotes is an operator.
pub fn split_pipeline(line: &str) -> (stages: Vec<String>)
    ensures
        texts(stages@) == pipeline_stages(line@),
{
    let pieces = pipeline_segments(line);
    let mut stages: Vec<String> = Vec::new();
    let ghost keep = |s: Seq<char>| s.len() > 0;
    let mut i: usize = 0;
    while i < pieces.len()
        invariant
            0 <= i <= pieces.len(),
            keep == |s: Seq<char>| s.len() > 0,
            texts(stages@) == texts(pieces@).take(i as int).filter(keep),
        decreases pieces.len() - i,
    {
        proof {
            reveal(Seq::filter);
            let t = texts(pieces@).take(i + 1);
            assert(t.drop_last() == texts(pieces@).take(i as int));
            assert(t.last() == pieces@[i as int]@);
        }
        if !pieces[i].as_str().is_empty() {
            let ghost old_stages = stages@;
            let piece = pieces[i].clone();
            stages.push(piece);
            assert(texts(stages@) == texts(old_stages).push(pieces@[i as int]@));
        }
        i += 1;
    }
    assert(texts(pieces@).take(pieces.len() as int) == texts(pieces@));
    stages
}

} // verus!

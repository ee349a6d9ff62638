//! What holds of word splitting and pipeline splitting on every line.

use vstd::prelude::*;
use crate::parser::{cut_run, cut_start, cut_step, is_pipe, lex_finish, lex_run, lex_start,
    lex_step, literal_run, literal_start, literal_step, mode_run, segments, split_literal,
    tokenize, trimmed_segments, word_texts, LexMode, Lexer, QuoteType};
use crate::text::{all_space, join_seq, lemma_trim_parts, trim};

verus! {

/// The pipe operator as a text.
pub open spec fn bar() -> Seq<char> {
    seq!['|']
}

/// `inner` is `outer` without some white space at its two ends.
pub open spec fn is_padded(outer: Seq<char>, inner: Seq<char>) -> bool {
    exists|a: int, b: int|
        0 <= a <= b <= outer.len() && inner == #[trigger] outer.subrange(a, b) && all_space(
            outer.take(a),
        ) && all_space(outer.skip(b)) && outer == outer.take(a) + inner + outer.skip(b)
}

/// At every point of a line, the finished segments and the one in progress,
/// joined by bars, are what was read.
proof fn lemma_cut_rejoins(s: Seq<char>)
    ensures
        join_seq(cut_run(cut_start(), s).done.push(cut_run(cut_start(), s).cur), bar()) == s,
    decreases s.len(),
{
    if s.len() == 0 {
        assert(cut_start().done.push(cut_start().cur) == seq![Seq::<char>::empty()]);
    } else {
        let p = s.drop_last();
        let c = s.last();
        lemma_cut_rejoins(p);
        let before = cut_run(cut_start(), p);
        let after = cut_step(before, c);
        let old_parts = before.done.push(before.cur);
        let new_parts = after.done.push(after.cur);
        assert(s == p.push(c));
        if is_pipe(before.mode, c) {
            assert(new_parts.drop_last() == old_parts);
            assert(new_parts.last() == Seq::<char>::empty());
            assert(join_seq(new_parts, bar()) == join_seq(old_parts, bar()) + bar()
                + Seq::<char>::empty());
            assert(p + bar() + Seq::<char>::empty() == p.push(c));
        } else {
            if before.done.len() == 0 {
                assert(old_parts == seq![before.cur]);
                assert(new_parts == seq![before.cur.push(c)]);
            } else {
                assert(old_parts.drop_last() == before.done);
                assert(new_parts.drop_last() == before.done);
                assert(join_seq(before.done, bar()) + bar() + before.cur.push(c) == (join_seq(
                    before.done,
                    bar(),
                ) + bar() + before.cur).push(c));
            }
        }
    }
}

/// Pipeline splitting loses nothing but white space: the segments of a line,
/// joined by bars, are the line, and each trimmed segment is its segment
/// without white space at the two ends, so every stage is a run of
/// characters of the line in their order.
pub proof fn lemma_split_rejoins(line: Seq<char>)
    ensures
        join_seq(segments(line), bar()) == line,
        trimmed_segments(line).len() == segments(line).len(),
        forall|i: int|
            0 <= i < segments(line).len() ==> is_padded(
                #[trigger] segments(line)[i],
                trimmed_segments(line)[i],
            ),
{
    lemma_cut_rejoins(line);
    assert forall|i: int| 0 <= i < segments(line).len() implies is_padded(
        #[trigger] segments(line)[i],
        trimmed_segments(line)[i],
    ) by {
        let seg = segments(line)[i];
        let cut = lemma_trim_parts(seg);
        assert(trimmed_segments(line)[i] == trim(seg));
        assert(trim(seg) == seg.subrange(cut.0, cut.1));
    }
}

/// A segment holds no pipe operator: read from its start outside quotes, no
/// bar in it stands outside quotes.
pub open spec fn no_pipe_inside(seg: Seq<char>) -> bool {
    forall|k: int|
        0 <= k < seg.len() ==> !is_pipe(mode_run(LexMode::Normal, #[trigger] seg.take(k)), seg[k])
}

/// At every point of a line, the cutter's mode is the mode in which the
/// segment in progress has been read, and no finished segment nor the one in
/// progress holds a pipe operator.
proof fn lemma_cut_modes(s: Seq<char>)
    ensures
        cut_run(cut_start(), s).mode == mode_run(LexMode::Normal, cut_run(cut_start(), s).cur),
        no_pipe_inside(cut_run(cut_start(), s).cur),
        forall|i: int|
            0 <= i < cut_run(cut_start(), s).done.len() ==> no_pipe_inside(
                #[trigger] cut_run(cut_start(), s).done[i],
            ),
    decreases s.len(),
{
    if s.len() > 0 {
        let p = s.drop_last();
        let c = s.last();
        lemma_cut_modes(p);
        let before = cut_run(cut_start(), p);
        let after = cut_step(before, c);
        if is_pipe(before.mode, c) {
            assert forall|i: int| 0 <= i < after.done.len() implies no_pipe_inside(
                #[trigger] after.done[i],
            ) by {
                if i < before.done.len() {
                    assert(after.done[i] == before.done[i]);
                }
            }
        } else {
            let cur = after.cur;
            assert(cur.drop_last() == before.cur);
            assert forall|k: int| 0 <= k < cur.len() implies !is_pipe(
                mode_run(LexMode::Normal, #[trigger] cur.take(k)),
                cur[k],
            ) by {
                if k < before.cur.len() {
                    assert(cur.take(k) == before.cur.take(k));
                } else {
                    assert(cur.take(k) == before.cur);
                }
            }
            assert forall|i: int| 0 <= i < after.done.len() implies no_pipe_inside(
                #[trigger] after.done[i],
            ) by {
                assert(after.done[i] == before.done[i]);
            }
        }
    }
}

/// Every bar outside quotes splits: no segment of a line, read from its
/// start, holds a bar outside single and double quotes.
pub proof fn lemma_segments_hold_no_pipe(line: Seq<char>)
    ensures
        forall|i: int| 0 <= i < segments(line).len() ==> no_pipe_inside(#[trigger] segments(line)[i]),
{
    lemma_cut_modes(line);
    let st = cut_run(cut_start(), line);
    assert forall|i: int| 0 <= i < segments(line).len() implies no_pipe_inside(
        #[trigger] segments(line)[i],
    ) by {
        if i < st.done.len() {
            assert(segments(line)[i] == st.done[i]);
        }
    }
}

/// `t` between two single quotes.
pub open spec fn quoted(t: Seq<char>) -> Seq<char> {
    seq!['\''] + t + seq!['\'']
}

/// The texts, each between single quotes, with one space between neighbours.
pub open spec fn requote(ts: Seq<Seq<char>>) -> Seq<char> {
    join_seq(Seq::new(ts.len(), |i: int| quoted(ts[i])), seq![' '])
}

/// The texts as words opened by a single quote.
pub open spec fn single_quoted_words(ts: Seq<Seq<char>>) -> Seq<(Seq<char>, QuoteType)> {
    Seq::new(ts.len(), |i: int| (ts[i], QuoteType::Single))
}

/// `t` holds no single quote.
pub open spec fn quote_free(t: Seq<char>) -> bool {
    forall|k: int| 0 <= k < t.len() ==> #[trigger] t[k] != '\''
}

/// Reading `a` and then `b` is reading `a + b`.
pub proof fn lemma_lex_run_concat(st: Lexer, a: Seq<char>, b: Seq<char>)
    ensures
        lex_run(st, a + b) == lex_run(lex_run(st, a), b),
    decreases b.len(),
{
    if b.len() == 0 {
        assert(a + b == a);
    } else {
        lemma_lex_run_concat(st, a, b.drop_last());
        assert((a + b).drop_last() == a + b.drop_last());
        assert((a + b).last() == b.last());
    }
}

/// Inside single quotes every character but the quote is gathered as it is.
proof fn lemma_lex_single_body(st: Lexer, t: Seq<char>)
    requires
        st.mode == LexMode::Single,
        quote_free(t),
    ensures
        lex_run(st, t) == (Lexer { cur: st.cur + t, ..st }),
    decreases t.len(),
{
    if t.len() == 0 {
        assert(st.cur + t == st.cur);
    } else {
        let p = t.drop_last();
        assert forall|k: int| 0 <= k < p.len() implies #[trigger] p[k] != '\'' by {
            assert(p[k] == t[k]);
        }
        lemma_lex_single_body(st, p);
        assert(t.last() == t[t.len() - 1]);
        assert(st.cur + t == (st.cur + p).push(t.last()));
    }
}

/// Outside quotes, with no word in progress, a quoted text becomes the word
/// in progress, opened by a single quote.
proof fn lemma_lex_quoted(st: Lexer, t: Seq<char>)
    requires
        st.mode == LexMode::Normal,
        st.cur.len() == 0,
        quote_free(t),
    ensures
        lex_run(st, quoted(t)) == (Lexer {
            words: st.words,
            cur: t,
            tag: QuoteType::Single,
            mode: LexMode::Normal,
        }),
{
    let open = seq!['\''];
    let opened = Lexer { tag: QuoteType::Single, mode: LexMode::Single, ..st };
    assert(lex_run(st, open) == opened) by {
        assert(open.drop_last() == Seq::<char>::empty());
        assert(lex_run(st, open.drop_last()) == st);
    }
    lemma_lex_run_concat(st, open, t);
    lemma_lex_single_body(opened, t);
    assert(opened.cur + t == t);
    let body = lex_run(st, open + t);
    assert((open + t + open).drop_last() == open + t);
    assert((open + t + open).last() == '\'');
}

/// After the quoted form of at least one text, all texts but the last are
/// finished words and the last is the word in progress.
proof fn lemma_lex_requote(ts: Seq<Seq<char>>)
    requires
        ts.len() > 0,
        forall|i: int| 0 <= i < ts.len() ==> (#[trigger] ts[i]).len() > 0 && quote_free(ts[i]),
    ensures
        lex_run(lex_start(), requote(ts)) == (Lexer {
            words: single_quoted_words(ts.drop_last()),
            cur: ts.last(),
            tag: QuoteType::Single,
            mode: LexMode::Normal,
        }),
    decreases ts.len(),
{
    let parts = Seq::new(ts.len(), |i: int| quoted(ts[i]));
    if ts.len() == 1 {
        assert(requote(ts) == quoted(ts[0]));
        lemma_lex_quoted(lex_start(), ts[0]);
        assert(single_quoted_words(ts.drop_last()) == Seq::<(Seq<char>, QuoteType)>::empty());
    } else {
        let head = ts.drop_last();
        let head_parts = Seq::new(head.len(), |i: int| quoted(head[i]));
        assert(parts.drop_last() == head_parts);
        lemma_lex_requote(head);
        let space = seq![' '];
        assert(requote(ts) == requote(head) + space + quoted(ts.last()));
        let after_head = lex_run(lex_start(), requote(head));
        lemma_lex_run_concat(lex_start(), requote(head) + space, quoted(ts.last()));
        lemma_lex_run_concat(lex_start(), requote(head), space);
        assert(space.drop_last() == Seq::<char>::empty());
        assert(lex_run(after_head, space.drop_last()) == after_head);
        assert(space.last() == ' ');
        assert(lex_run(after_head, space) == lex_step(after_head, ' '));
        let flushed = lex_step(after_head, ' ');
        assert(head.last().len() > 0);
        assert(flushed.words == single_quoted_words(head.drop_last()).push(
            (head.last(), QuoteType::Single),
        ));
        assert(flushed.words == single_quoted_words(head));
        lemma_lex_quoted(flushed, ts.last());
    }
}

/// No finished word is empty, at any point of any line.
proof fn lemma_lex_words_not_empty(s: Seq<char>)
    ensures
        forall|i: int|
            0 <= i < lex_run(lex_start(), s).words.len() ==> (#[trigger] lex_run(
                lex_start(),
                s,
            ).words[i]).0.len() > 0,
    decreases s.len(),
{
    if s.len() > 0 {
        lemma_lex_words_not_empty(s.drop_last());
        let before = lex_run(lex_start(), s.drop_last());
        let after = lex_step(before, s.last());
        assert forall|i: int| 0 <= i < after.words.len() implies (#[trigger] after.words[i]).0.len()
            > 0 by {
            if i < before.words.len() {
                assert(after.words[i] == before.words[i]);
            }
        }
    }
}

/// No word of a line is empty.
pub proof fn lemma_words_not_empty(line: Seq<char>)
    ensures
        forall|i: int| 0 <= i < tokenize(line).len() ==> (#[trigger] tokenize(line)[i]).0.len() > 0,
{
    lemma_lex_words_not_empty(line);
    let st = lex_run(lex_start(), line);
    assert forall|i: int| 0 <= i < tokenize(line).len() implies (#[trigger] tokenize(line)[i]).0.len()
        > 0 by {
        if i < st.words.len() {
            assert(tokenize(line)[i] == st.words[i]);
        }
    }
}

/// Texts that are put between single quotes, joined by spaces and split
/// again come back unchanged, each as a word opened by a single quote. This
/// holds of texts that are not empty and hold no single quote.
pub proof fn lemma_requote_splits_back(ts: Seq<Seq<char>>)
    requires
        forall|i: int| 0 <= i < ts.len() ==> (#[trigger] ts[i]).len() > 0 && quote_free(ts[i]),
    ensures
        tokenize(requote(ts)) == single_quoted_words(ts),
{
    if ts.len() == 0 {
        assert(requote(ts) == Seq::<char>::empty());
        assert(tokenize(requote(ts)) == single_quoted_words(ts));
    } else {
        lemma_lex_requote(ts);
        let st = lex_run(lex_start(), requote(ts));
        assert(lex_finish(st) == single_quoted_words(ts.drop_last()).push(
            (ts.last(), QuoteType::Single),
        ));
        assert(lex_finish(st) == single_quoted_words(ts));
    }
}

/// Word splitting is idempotent on its own result written out with each word
/// between single quotes: the second splitting gives the same texts. A single
/// quote cannot stand between single quotes, so this is stated of lines none
/// of whose words holds one.
pub proof fn lemma_tokenize_idempotent(line: Seq<char>)
    requires
        forall|i: int|
            0 <= i < tokenize(line).len() ==> quote_free((#[trigger] tokenize(line)[i]).0),
    ensures
        word_texts(tokenize(requote(word_texts(tokenize(line))))) == word_texts(tokenize(line)),
{
    let ts = word_texts(tokenize(line));
    lemma_words_not_empty(line);
    assert forall|i: int| 0 <= i < ts.len() implies (#[trigger] ts[i]).len() > 0 && quote_free(
        ts[i],
    ) by {
        assert(ts[i] == tokenize(line)[i].0);
    }
    lemma_requote_splits_back(ts);
    assert(word_texts(single_quoted_words(ts)) == ts);
}

/// The number of bars of a line that stand outside single and double quotes.
pub open spec fn bars_outside_quotes(line: Seq<char>) -> nat
    decreases line.len(),
{
    if line.len() == 0 {
        0
    } else {
        let here: nat = if is_pipe(mode_run(LexMode::Normal, line.drop_last()), line.last()) {
            1
        } else {
            0
        };
        bars_outside_quotes(line.drop_last()) + here
    }
}

/// At every point of a line, the cutter reads in the mode of the whole line
/// so far, and has finished one segment for each bar outside quotes.
proof fn lemma_cut_counts(s: Seq<char>)
    ensures
        cut_run(cut_start(), s).mode == mode_run(LexMode::Normal, s),
        cut_run(cut_start(), s).done.len() == bars_outside_quotes(s),
    decreases s.len(),
{
    if s.len() > 0 {
        lemma_cut_counts(s.drop_last());
    }
}

/// A bar ends a stage exactly if it stands outside single and double quotes:
/// a line has one segment more than it has such bars.
pub proof fn lemma_segment_count(line: Seq<char>)
    ensures
        segments(line).len() == 1 + bars_outside_quotes(line),
        trimmed_segments(line).len() == 1 + bars_outside_quotes(line),
{
    lemma_cut_counts(line);
}

/// The line holds no quote and no backslash.
pub open spec fn plain(line: Seq<char>) -> bool {
    forall|k: int|
        0 <= k < line.len() ==> #[trigger] line[k] != '\'' && line[k] != '"' && line[k] != '\\'
}

/// On a line without quotes and backslashes the two splitters run alike.
proof fn lemma_plain_runs(s: Seq<char>)
    requires
        plain(s),
    ensures
        lex_run(lex_start(), s).mode == LexMode::Normal,
        lex_run(lex_start(), s).tag == QuoteType::Unquoted,
        !literal_run(literal_start(), s).escaped,
        literal_run(literal_start(), s).cur == lex_run(lex_start(), s).cur,
        literal_run(literal_start(), s).words == word_texts(lex_run(lex_start(), s).words),
        forall|i: int|
            0 <= i < lex_run(lex_start(), s).words.len() ==> (#[trigger] lex_run(
                lex_start(),
                s,
            ).words[i]).1 == QuoteType::Unquoted,
    decreases s.len(),
{
    if s.len() == 0 {
        assert(word_texts(lex_start().words) == Seq::<Seq<char>>::empty());
    } else {
        let p = s.drop_last();
        assert forall|k: int| 0 <= k < p.len() implies #[trigger] p[k] != '\'' && p[k] != '"'
            && p[k] != '\\' by {
            assert(p[k] == s[k]);
        }
        lemma_plain_runs(p);
        let c = s.last();
        assert(c == s[s.len() - 1]);
        let before = lex_run(lex_start(), p);
        let after = lex_step(before, c);
        assert(word_texts(after.words) == literal_step(literal_run(literal_start(), p), c).words);
        assert forall|i: int| 0 <= i < after.words.len() implies (#[trigger] after.words[i]).1
            == QuoteType::Unquoted by {
            if i < before.words.len() {
                assert(after.words[i] == before.words[i]);
            }
        }
    }
}

/// On a line without quotes and backslashes, word splitting is splitting at
/// white space: it gives the words of the literal splitter, and no word is
/// tagged with a quote.
pub proof fn lemma_plain_line_splits_at_white_space(line: Seq<char>)
    requires
        plain(line),
    ensures
        word_texts(tokenize(line)) == split_literal(line),
        forall|i: int|
            0 <= i < tokenize(line).len() ==> (#[trigger] tokenize(line)[i]).1
                == QuoteType::Unquoted,
{
    lemma_plain_runs(line);
    let st = lex_run(lex_start(), line);
    assert(word_texts(tokenize(line)) == split_literal(line));
    assert forall|i: int| 0 <= i < tokenize(line).len() implies (#[trigger] tokenize(line)[i]).1
        == QuoteType::Unquoted by {
        if i < st.words.len() {
            assert(tokenize(line)[i] == st.words[i]);
        }
    }
}

} // verus!

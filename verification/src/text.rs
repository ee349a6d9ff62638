//! Characters and strings: the few operations the shell needs on text, each
//! with its meaning stated over `Seq<char>`.

use vstd::prelude::*;
use vstd::string::StringExecFns;

verus! {

broadcast use vstd::string::group_string_axioms;

/// The characters with the Unicode property `White_Space`.
pub open spec fn is_space(c: char) -> bool {
    let n = c as int;
    ||| 0x09 <= n <= 0x0d
    ||| n == 0x20
    ||| n == 0x85
    ||| n == 0xa0
    ||| n == 0x1680
    ||| 0x2000 <= n <= 0x200a
    ||| n == 0x2028
    ||| n == 0x2029
    ||| n == 0x202f
    ||| n == 0x205f
    ||| n == 0x3000
}

/// Every character of `s` is white space.
pub open spec fn all_space(s: Seq<char>) -> bool {
    forall|i: int| 0 <= i < s.len() ==> is_space(#[trigger] s[i])
}

/// `s` without its leading white space.
pub open spec fn trim_start(s: Seq<char>) -> Seq<char>
    decreases s.len(),
{
    if s.len() > 0 && is_space(s[0]) {
        trim_start(s.drop_first())
    } else {
        s
    }
}

/// `s` without its trailing white space.
pub open spec fn trim_end(s: Seq<char>) -> Seq<char>
    decreases s.len(),
{
    if s.len() > 0 && is_space(s.last()) {
        trim_end(s.drop_last())
    } else {
        s
    }
}

/// `s` without the white space on either side.
pub open spec fn trim(s: Seq<char>) -> Seq<char> {
    trim_end(trim_start(s))
}

/// The views of a sequence of strings.
pub open spec fn texts(v: Seq<String>) -> Seq<Seq<char>> {
    Seq::new(v.len(), |i: int| v[i]@)
}

/// `pat` occurs in `s` at position `at`.
pub open spec fn occurs_at(s: Seq<char>, pat: Seq<char>, at: int) -> bool {
    0 <= at && at + pat.len() <= s.len() && s.subrange(at, at + pat.len()) == pat
}

/// `pat` occurs somewhere in `s`.
pub open spec fn contains_seq(s: Seq<char>, pat: Seq<char>) -> bool {
    exists|at: int| occurs_at(s, pat, at)
}

/// `s` begins with `pat`.
pub open spec fn starts_with_seq(s: Seq<char>, pat: Seq<char>) -> bool {
    occurs_at(s, pat, 0)
}

/// The parts in order, with `sep` between each two neighbours.
pub open spec fn join_seq(parts: Seq<Seq<char>>, sep: Seq<char>) -> Seq<char>
    decreases parts.len(),
{
    if parts.len() == 0 {
        Seq::empty()
    } else if parts.len() == 1 {
        parts[0]
    } else {
        join_seq(parts.drop_last(), sep) + sep + parts.last()
    }
}

/// Calls `String::push`. The contract is taken on trust from the standard
/// library's documentation: the call appends the character to the end of
/// the string and changes nothing else of it.
#[verifier::external_body]
pub(crate) fn push_char(s: &mut String, c: char)
    ensures
        final(s)@ == old(s)@.push(c),
{
    s.push(c);
}

/// The characters of a string slice, one element each.
pub fn to_chars(s: &str) -> (out: Vec<char>)
    ensures
        out@ == s@,
{
    let mut out: Vec<char> = Vec::new();
    for c in it: s.chars()
        invariant
            it.seq() == s@,
            out@ == it.seq().take(it.index() as int),
    {
        out.push(c);
    }
    out
}

/// The string made of `v[from..to]`.
pub fn slice_to_string(v: &Vec<char>, from: usize, to: usize) -> (out: String)
    requires
        from <= to <= v.len(),
    ensures
        out@ == v@.subrange(from as int, to as int),
{
    let mut out = String::new();
    let mut i: usize = from;
    while i < to
        invariant
            from <= i <= to <= v.len(),
            out@ == v@.subrange(from as int, i as int),
        decreases to - i,
    {
        push_char(&mut out, v[i]);
        i += 1;
    }
    out
}

/// Whether `c` is white space.
pub fn is_whitespace(c: char) -> (b: bool)
    ensures
        b == is_space(c),
{
    let n: u32 = c as u32;
    (0x09 <= n && n <= 0x0d) || n == 0x20 || n == 0x85 || n == 0xa0 || n == 0x1680 || (0x2000 <= n
        && n <= 0x200a) || n == 0x2028 || n == 0x2029 || n == 0x202f || n == 0x205f || n == 0x3000
}

/// Whether two character vectors hold the same text.
pub fn chars_equal(a: &Vec<char>, b: &Vec<char>) -> (r: bool)
    ensures
        r == (a@ == b@),
{
    if a.len() != b.len() {
        return false;
    }
    let mut i: usize = 0;
    while i < a.len()
        invariant
            a.len() == b.len(),
            0 <= i <= a.len(),
            a@.take(i as int) == b@.take(i as int),
        decreases a.len() - i,
    {
        if a[i] != b[i] {
            return false;
        }
        assert(a@.take(i + 1) == a@.take(i as int).push(a@[i as int]));
        assert(b@.take(i + 1) == b@.take(i as int).push(b@[i as int]));
        i += 1;
    }
    assert(a@.take(a.len() as int) == a@);
    assert(b@.take(b.len() as int) == b@);
    true
}

/// Whether two string slices hold the same text.
pub fn str_equal(a: &str, b: &str) -> (r: bool)
    ensures
        r == (a@ == b@),
{
    let av = to_chars(a);
    let bv = to_chars(b);
    chars_equal(&av, &bv)
}

/// Leading white space is what `trim_start` removes: if the first `a`
/// characters are white space and the next one is not, it leaves `s.skip(a)`.
pub proof fn lemma_trim_start(s: Seq<char>, a: int)
    requires
        0 <= a <= s.len(),
        all_space(s.take(a)),
        a == s.len() || !is_space(s[a]),
    ensures
        trim_start(s) == s.skip(a),
    decreases a,
{
    if a == 0 {
        assert(s.skip(0) == s);
    } else {
        assert(s.take(a)[0] == s[0]);
        let t = s.drop_first();
        assert forall|i: int| 0 <= i < t.take(a - 1).len() implies is_space(
            #[trigger] t.take(a - 1)[i],
        ) by {
            assert(t.take(a - 1)[i] == s.take(a)[i + 1]);
        }
        lemma_trim_start(t, a - 1);
        assert(t.skip(a - 1) == s.skip(a));
    }
}

/// Trailing white space is what `trim_end` removes: if everything from `b` on
/// is white space and the character before `b` is not, it leaves `s.take(b)`.
pub proof fn lemma_trim_end(s: Seq<char>, b: int)
    requires
        0 <= b <= s.len(),
        all_space(s.skip(b)),
        b == 0 || !is_space(s[b - 1]),
    ensures
        trim_end(s) == s.take(b),
    decreases s.len() - b,
{
    if b == s.len() {
        assert(s.take(b) == s);
    } else {
        assert(s.skip(b)[s.len() - b - 1] == s.last());
        let t = s.drop_last();
        assert forall|i: int| 0 <= i < t.skip(b).len() implies is_space(#[trigger] t.skip(b)[i]) by {
            assert(t.skip(b)[i] == s.skip(b)[i]);
        }
        lemma_trim_end(t, b);
        assert(t.take(b) == s.take(b));
    }
}

/// Trimming cuts a text into white space, the trimmed text, and white space.
pub proof fn lemma_trim_parts(s: Seq<char>) -> (cut: (int, int))
    ensures
        0 <= cut.0 <= cut.1 <= s.len(),
        trim(s) == s.subrange(cut.0, cut.1),
        all_space(s.take(cut.0)),
        all_space(s.skip(cut.1)),
        s == s.take(cut.0) + trim(s) + s.skip(cut.1),
        trim(s).len() > 0 ==> !is_space(trim(s)[0]) && !is_space(trim(s).last()),
    decreases s.len(),
{
    let a = choose_start(s, 0);
    lemma_trim_start(s, a);
    let t = s.skip(a);
    let b = choose_end(t, t.len() as int);
    lemma_trim_end(t, b);
    assert(t.take(b) == s.subrange(a, a + b));
    assert(s.skip(a + b) == t.skip(b));
    assert(s == s.take(a) + s.subrange(a, a + b) + s.skip(a + b));
    (a, a + b)
}

/// The first position at or after `from` that holds no white space.
proof fn choose_start(s: Seq<char>, from: int) -> (a: int)
    requires
        0 <= from <= s.len(),
        all_space(s.take(from)),
    ensures
        from <= a <= s.len(),
        all_space(s.take(a)),
        a == s.len() || !is_space(s[a]),
    decreases s.len() - from,
{
    if from == s.len() || !is_space(s[from]) {
        from
    } else {
        assert forall|i: int| 0 <= i < s.take(from + 1).len() implies is_space(
            #[trigger] s.take(from + 1)[i],
        ) by {
            if i < from {
                assert(s.take(from + 1)[i] == s.take(from)[i]);
            }
        }
        choose_start(s, from + 1)
    }
}

/// The last position at or before `to` that follows no white space.
proof fn choose_end(s: Seq<char>, to: int) -> (b: int)
    requires
        0 <= to <= s.len(),
        all_space(s.skip(to)),
    ensures
        0 <= b <= to,
        all_space(s.skip(b)),
        b == 0 || !is_space(s[b - 1]),
    decreases to,
{
    if to == 0 || !is_space(s[to - 1]) {
        to
    } else {
        assert forall|i: int| 0 <= i < s.skip(to - 1).len() implies is_space(
            #[trigger] s.skip(to - 1)[i],
        ) by {
            if i > 0 {
                assert(s.skip(to - 1)[i] == s.skip(to)[i - 1]);
            }
        }
        choose_end(s, to - 1)
    }
}

/// Where the trimmed text lies in `v`: it is `v[start..end]`.
pub fn trim_bounds(v: &Vec<char>) -> (cut: (usize, usize))
    ensures
        cut.0 <= cut.1 <= v.len(),
        v@.subrange(cut.0 as int, cut.1 as int) == trim(v@),
{
    let mut a: usize = 0;
    while a < v.len() && is_whitespace(v[a])
        invariant
            0 <= a <= v.len(),
            all_space(v@.take(a as int)),
        decreases v.len() - a,
    {
        assert forall|i: int| 0 <= i < v@.take(a + 1).len() implies is_space(
            #[trigger] v@.take(a + 1)[i],
        ) by {
            if i < a {
                assert(v@.take(a + 1)[i] == v@.take(a as int)[i]);
            }
        }
        a += 1;
    }
    let mut b: usize = v.len();
    while b > a && is_whitespace(v[b - 1])
        invariant
            a <= b <= v.len(),
            all_space(v@.skip(b as int)),
        decreases b,
    {
        assert forall|i: int| 0 <= i < v@.skip(b - 1).len() implies is_space(
            #[trigger] v@.skip(b - 1)[i],
        ) by {
            if i > 0 {
                assert(v@.skip(b - 1)[i] == v@.skip(b as int)[i - 1]);
            }
        }
        b -= 1;
    }
    proof {
        lemma_trim_start(v@, a as int);
        let t = v@.skip(a as int);
        assert forall|i: int| 0 <= i < t.skip(b - a).len() implies is_space(
            #[trigger] t.skip(b - a)[i],
        ) by {
            assert(t.skip(b - a)[i] == v@.skip(b as int)[i]);
        }
        if b > a {
            assert(t[b - a - 1] == v@[b - 1]);
        }
        lemma_trim_end(t, b - a);
        assert(t.take(b - a) == v@.subrange(a as int, b as int));
    }
    (a, b)
}

/// The text of `s` without the white space on either side.
pub fn trimmed(s: &str) -> (out: String)
    ensures
        out@ == trim(s@),
{
    let v = to_chars(s);
    let (a, b) = trim_bounds(&v);
    slice_to_string(&v, a, b)
}

/// Whether `pat` occurs in `s` at position `at`.
pub fn matches_at(s: &Vec<char>, pat: &Vec<char>, at: usize) -> (r: bool)
    ensures
        r == occurs_at(s@, pat@, at as int),
{
    if pat.len() > s.len() || at > s.len() - pat.len() {
        return false;
    }
    let mut k: usize = 0;
    while k < pat.len()
        invariant
            at + pat.len() <= s.len(),
            0 <= k <= pat.len(),
            s@.subrange(at as int, at + k) == pat@.take(k as int),
        decreases pat.len() - k,
    {
        if s[at + k] != pat[k] {
            assert(s@.subrange(at as int, at + pat.len())[k as int] == s@[at + k]);
            return false;
        }
        assert(s@.subrange(at as int, at + k + 1) == s@.subrange(at as int, at + k).push(
            s@[at + k],
        ));
        assert(pat@.take(k + 1) == pat@.take(k as int).push(pat@[k as int]));
        k += 1;
    }
    assert(pat@.take(pat.len() as int) == pat@);
    true
}

/// Whether `pat` occurs somewhere in `s`.
pub fn contains_chars(s: &Vec<char>, pat: &Vec<char>) -> (r: bool)
    ensures
        r == contains_seq(s@, pat@),
{
    if pat.len() > s.len() {
        return false;
    }
    let last: usize = s.len() - pat.len();
    let mut at: usize = 0;
    loop
        invariant
            last == s.len() - pat.len(),
            0 <= at <= last,
            forall|j: int| 0 <= j < at ==> !occurs_at(s@, pat@, j),
        decreases last - at,
    {
        if matches_at(s, pat, at) {
            return true;
        }
        if at == last {
            return false;
        }
        at += 1;
    }
}

/// Whether `pat` occurs somewhere in `s`.
pub fn str_contains(s: &str, pat: &str) -> (r: bool)
    ensures
        r == contains_seq(s@, pat@),
{
    let sv = to_chars(s);
    let pv = to_chars(pat);
    contains_chars(&sv, &pv)
}

/// The strings of `parts` from position `from` on, with `sep` between each
/// two neighbours.
pub fn join_from(parts: &Vec<String>, from: usize, sep: &str) -> (out: String)
    requires
        from <= parts.len(),
    ensures
        out@ == join_seq(texts(parts@).skip(from as int), sep@),
{
    let ghost rest = texts(parts@).skip(from as int);
    let mut out = String::new();
    let mut i: usize = from;
    assert(rest.take(0).len() == 0);
    while i < parts.len()
        invariant
            from <= i <= parts.len(),
            rest == texts(parts@).skip(from as int),
            out@ == join_seq(rest.take(i - from), sep@),
        decreases parts.len() - i,
    {
        proof {
            let t = rest.take(i + 1 - from);
            assert(t.drop_last() == rest.take(i - from));
            assert(t.last() == parts@[i as int]@);
        }
        if i > from {
            out.append(sep);
        }
        out.append(parts[i].as_str());
        i += 1;
    }
    assert(rest.take(parts.len() - from) == rest);
    out
}

/// The strings of `parts` in order, with `sep` between each two neighbours.
pub fn join(parts: &Vec<String>, sep: &str) -> (out: String)
    ensures
        out@ == join_seq(texts(parts@), sep@),
{
    assert(texts(parts@).skip(0) == texts(parts@));
    join_from(parts, 0, sep)
}

/// The pieces of `s` between the occurrences of `sep`: one more piece than
/// there are separators, empty pieces included.
pub open spec fn split_on(s: Seq<char>, sep: char) -> Seq<Seq<char>>
    decreases s.len(),
{
    if s.len() == 0 {
        seq![Seq::empty()]
    } else {
        let before = split_on(s.drop_last(), sep);
        if s.last() == sep {
            before.push(Seq::empty())
        } else {
            before.drop_last().push(before.last().push(s.last()))
        }
    }
}

/// The pieces of `s` between the occurrences of `sep`.
pub fn split(s: &str, sep: char) -> (pieces: Vec<String>)
    ensures
        texts(pieces@) == split_on(s@, sep),
        pieces.len() > 0,
{
    let v = to_chars(s);
    let mut pieces: Vec<String> = Vec::new();
    let mut cur = String::new();
    let mut i: usize = 0;
    assert(texts(pieces@).push(cur@) == split_on(v@.take(0), sep));
    while i < v.len()
        invariant
            0 <= i <= v.len(),
            v@ == s@,
            texts(pieces@).push(cur@) == split_on(v@.take(i as int), sep),
        decreases v.len() - i,
    {
        let c = v[i];
        proof {
            assert(v@.take(i + 1).drop_last() == v@.take(i as int));
            assert(v@.take(i + 1).last() == c);
            assert(texts(pieces@).push(cur@).drop_last() == texts(pieces@));
        }
        if c == sep {
            let ghost old_pieces = pieces@;
            let ghost piece = cur@;
            pieces.push(cur);
            assert(texts(pieces@) == texts(old_pieces).push(piece));
            cur = String::new();
        } else {
            push_char(&mut cur, c);
        }
        i += 1;
    }
    assert(v@.take(v.len() as int) == v@);
    let ghost old_pieces = pieces@;
    let ghost piece = cur@;
    pieces.push(cur);
    assert(texts(pieces@) == texts(old_pieces).push(piece));
    pieces
}

/// Whether `s` holds nothing but white space.
pub fn is_blank(s: &str) -> (b: bool)
    ensures
        b == (trim(s@).len() == 0),
{
    let v = to_chars(s);
    let (a, b) = trim_bounds(&v);
    a == b
}

} // verus!

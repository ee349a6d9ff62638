//! Completion of command names: which names begin with what was typed, and
//! how often the same beginning was asked for in a row.

use vstd::prelude::*;
use vstd::string::StringExecFns;
use crate::builtins::is_builtin_name;
use crate::text::{chars_equal, matches_at, starts_with_seq, texts, to_chars};

verus! {

/// The order of texts by their characters, as in a dictionary in which a
/// beginning of a word stands before the word.
pub open spec fn lex_less(a: Seq<char>, b: Seq<char>) -> bool
    decreases a.len(),
{
    if b.len() == 0 {
        false
    } else if a.len() == 0 {
        true
    } else if a[0] != b[0] {
        (a[0] as int) < (b[0] as int)
    } else {
        lex_less(a.skip(1), b.skip(1))
    }
}

/// Each text stands before all that follow it: the texts are in order, and
/// none occurs twice.
pub open spec fn strictly_sorted(v: Seq<Seq<char>>) -> bool {
    forall|i: int, j: int| 0 <= i < j < v.len() ==> lex_less(#[trigger] v[i], #[trigger] v[j])
}

/// No text stands before itself.
pub proof fn lemma_lex_irreflexive(a: Seq<char>)
    ensures
        !lex_less(a, a),
    decreases a.len(),
{
    if a.len() > 0 {
        lemma_lex_irreflexive(a.skip(1));
    }
}

/// Of two different texts one stands before the other.
pub proof fn lemma_lex_total(a: Seq<char>, b: Seq<char>)
    ensures
        a == b || lex_less(a, b) || lex_less(b, a),
    decreases a.len(),
{
    if a.len() > 0 && b.len() > 0 && a[0] == b[0] {
        lemma_lex_total(a.skip(1), b.skip(1));
        if a.skip(1) == b.skip(1) {
            assert(a =~= seq![a[0]] + a.skip(1));
            assert(b =~= seq![b[0]] + b.skip(1));
        }
    } else if a.len() == 0 && b.len() == 0 {
        assert(a =~= b);
    }
}

/// The order is transitive.
pub proof fn lemma_lex_transitive(a: Seq<char>, b: Seq<char>, c: Seq<char>)
    requires
        lex_less(a, b),
        lex_less(b, c),
    ensures
        lex_less(a, c),
    decreases a.len(),
{
    if a.len() > 0 && a[0] == b[0] && b[0] == c[0] {
        lemma_lex_transitive(a.skip(1), b.skip(1), c.skip(1));
    }
}

/// How two texts stand to each other.
#[derive(Clone, Copy, PartialEq, Eq, Debug, Structural)]
pub enum Standing {
    Before,
    Same,
    After,
}

/// How `a` stands to `b` in the order of texts.
pub fn standing(a: &Vec<char>, b: &Vec<char>) -> (r: Standing)
    ensures
        r == Standing::Before <==> lex_less(a@, b@),
        r == Standing::Same <==> a@ == b@,
        r == Standing::After <==> lex_less(b@, a@),
{
    let mut i: usize = 0;
    proof {
        assert(a@.skip(0) == a@);
        assert(b@.skip(0) == b@);
        lemma_lex_irreflexive(a@);
        lemma_lex_asymmetric(a@, b@);
    }
    while i < a.len() && i < b.len()
        invariant
            0 <= i <= a.len(),
            i <= b.len(),
            a@.take(i as int) == b@.take(i as int),
            lex_less(a@, b@) == lex_less(a@.skip(i as int), b@.skip(i as int)),
            lex_less(b@, a@) == lex_less(b@.skip(i as int), a@.skip(i as int)),
        decreases a.len() - i,
    {
        let ghost x = a@.skip(i as int);
        let ghost y = b@.skip(i as int);
        proof {
            assert(x[0] == a@[i as int]);
            assert(y[0] == b@[i as int]);
            assert(x.skip(1) == a@.skip(i + 1));
            assert(y.skip(1) == b@.skip(i + 1));
        }
        if a[i] != b[i] {
            proof {
                assert(a@.take(i + 1)[i as int] != b@.take(i + 1)[i as int]);
                assert(a@ != b@);
            }
            if a[i] < b[i] {
                return Standing::Before;
            } else {
                return Standing::After;
            }
        }
        proof {
            assert(a@.take(i + 1) == a@.take(i as int).push(a@[i as int]));
            assert(b@.take(i + 1) == b@.take(i as int).push(b@[i as int]));
        }
        i += 1;
    }
    proof {
        if i == a.len() {
            assert(a@.take(i as int) == a@);
        }
        if i == b.len() {
            assert(b@.take(i as int) == b@);
        }
        if a.len() != b.len() {
            assert(a@ != b@);
        }
    }
    if a.len() == b.len() {
        Standing::Same
    } else if i == a.len() {
        Standing::Before
    } else {
        Standing::After
    }
}

/// Of two texts at most one stands before the other.
pub proof fn lemma_lex_asymmetric(a: Seq<char>, b: Seq<char>)
    ensures
        !(lex_less(a, b) && lex_less(b, a)),
    decreases a.len(),
{
    if a.len() > 0 && b.len() > 0 && a[0] == b[0] {
        lemma_lex_asymmetric(a.skip(1), b.skip(1));
    }
}

/// Where `key` belongs among the sorted `names`: the position before which
/// every name stands before `key`, and whether `key` is the name at that
/// position.
fn place_of(names: &Vec<String>, key: &Vec<char>) -> (place: (usize, bool))
    requires
        strictly_sorted(texts(names@)),
    ensures
        place.0 <= names.len(),
        forall|j: int| 0 <= j < place.0 ==> lex_less(#[trigger] texts(names@)[j], key@),
        place.1 ==> place.0 < names.len() && texts(names@)[place.0 as int] == key@,
        !place.1 ==> forall|j: int|
            place.0 <= j < names.len() ==> lex_less(key@, #[trigger] texts(names@)[j]),
{
    let ghost all = texts(names@);
    let mut i: usize = 0;
    while i < names.len()
        invariant
            0 <= i <= names.len(),
            all == texts(names@),
            strictly_sorted(all),
            forall|j: int| 0 <= j < i ==> lex_less(#[trigger] all[j], key@),
        decreases names.len() - i,
    {
        let here = to_chars(names[i].as_str());
        assert(all[i as int] == here@);
        match standing(&here, key) {
            Standing::Before => {},
            Standing::Same => {
                return (i, true);
            },
            Standing::After => {
                proof {
                    assert forall|j: int| i <= j < names.len() implies lex_less(
                        key@,
                        #[trigger] all[j],
                    ) by {
                        if j > i {
                            lemma_lex_transitive(key@, all[i as int], all[j]);
                        }
                    }
                }
                return (i, false);
            },
        }
        i += 1;
    }
    (i, false)
}

/// Puts `name` at its place among the sorted `names`, unless it is there.
pub fn insert_sorted(names: &mut Vec<String>, name: &str)
    requires
        strictly_sorted(texts(old(names)@)),
    ensures
        strictly_sorted(texts(final(names)@)),
        forall|s: Seq<char>|
            #[trigger] texts(final(names)@).contains(s) <==> (texts(old(names)@).contains(s) || s
                == name@),
{
    let key = to_chars(name);
    let ghost before = texts(names@);
    let (i, present) = place_of(names, &key);
    if present {
        assert(before.contains(name@));
        return ;
    }
    names.insert(i, String::from_str(name));
    proof {
        let after = texts(names@);
        assert(after =~= before.take(i as int).push(name@) + before.skip(i as int));
        assert forall|x: int, y: int| 0 <= x < y < after.len() implies lex_less(
            #[trigger] after[x],
            #[trigger] after[y],
        ) by {
            let px = if x < i { x } else { x - 1 };
            let py = if y < i { y } else { y - 1 };
            if x != i && y != i {
                assert(after[x] == before[px]);
                assert(after[y] == before[py]);
            } else if x == i {
                assert(after[y] == before[py]);
            } else {
                assert(after[x] == before[px]);
            }
        }
        assert forall|s: Seq<char>| after.contains(s) <==> (before.contains(s) || s == name@) by {
            if after.contains(s) {
                let k = choose|k: int| 0 <= k < after.len() && after[k] == s;
                if k < i {
                    assert(before[k] == s);
                } else if k > i {
                    assert(before[k - 1] == s);
                }
            }
            if before.contains(s) {
                let k = choose|k: int| 0 <= k < before.len() && before[k] == s;
                if k < i {
                    assert(after[k] == s);
                } else {
                    assert(after[k + 1] == s);
                }
            }
            if s == name@ {
                assert(after[i as int] == s);
            }
        }
    }
}

/// A text is among the first `i + 1` of a sequence if it is among the first
/// `i` or is the one at `i`.
proof fn lemma_take_contains(x: Seq<Seq<char>>, i: int, s: Seq<char>)
    requires
        0 <= i < x.len(),
    ensures
        x.take(i + 1).contains(s) <==> (x.take(i).contains(s) || s == x[i]),
{
    let longer = x.take(i + 1);
    let shorter = x.take(i);
    if longer.contains(s) {
        let k = choose|k: int| 0 <= k < longer.len() && longer[k] == s;
        if k < i {
            assert(shorter[k] == s);
        }
    }
    if shorter.contains(s) {
        let k = choose|k: int| 0 <= k < shorter.len() && shorter[k] == s;
        assert(longer[k] == s);
    }
    if s == x[i] {
        assert(longer[i] == s);
    }
}

/// Puts each name of `source` that begins with `prefix` at its place among
/// the sorted `names`, unless it is there.
pub fn insert_matching(names: &mut Vec<String>, prefix: &str, source: &Vec<String>)
    requires
        strictly_sorted(texts(old(names)@)),
    ensures
        strictly_sorted(texts(final(names)@)),
        forall|s: Seq<char>|
            #[trigger] texts(final(names)@).contains(s) <==> (texts(old(names)@).contains(s) || (
            starts_with_seq(s, prefix@) && texts(source@).contains(s))),
{
    let wanted = to_chars(prefix);
    let ghost pool = texts(source@);
    let ghost before = texts(names@);
    let mut i: usize = 0;
    assert(pool.take(0).len() == 0);
    while i < source.len()
        invariant
            0 <= i <= source.len(),
            wanted@ == prefix@,
            pool == texts(source@),
            strictly_sorted(texts(names@)),
            forall|s: Seq<char>|
                #[trigger] texts(names@).contains(s) <==> (before.contains(s) || (starts_with_seq(
                    s,
                    prefix@,
                ) && pool.take(i as int).contains(s))),
        decreases source.len() - i,
    {
        let v = to_chars(source[i].as_str());
        let ghost so_far = texts(names@);
        assert(pool[i as int] == source@[i as int]@);
        if matches_at(&v, &wanted, 0) {
            insert_sorted(names, source[i].as_str());
        }
        i += 1;
        proof {
            assert forall|s: Seq<char>|
                #[trigger] texts(names@).contains(s) <==> (before.contains(s) || (starts_with_seq(
                    s,
                    prefix@,
                ) && pool.take(i as int).contains(s))) by {
                lemma_take_contains(pool, i - 1, s);
                assert(pool.take(i - 1 + 1) == pool.take(i as int));
                assert(so_far.contains(s) <==> (before.contains(s) || (starts_with_seq(s, prefix@)
                    && pool.take(i - 1).contains(s))));
            }
        }
    }
    assert(pool.take(source.len() as int) == pool);
}

/// The names of the builtins.
pub open spec fn builtin_names() -> Seq<Seq<char>> {
    seq!["echo"@, "exit"@, "type"@, "pwd"@, "cd"@, "history"@]
}

/// The names of the builtins.
pub fn builtin_list() -> (names: Vec<String>)
    ensures
        texts(names@) == builtin_names(),
        forall|s: Seq<char>| texts(names@).contains(s) <==> is_builtin_name(s),
{
    let mut names: Vec<String> = Vec::new();
    names.push(String::from_str("echo"));
    names.push(String::from_str("exit"));
    names.push(String::from_str("type"));
    names.push(String::from_str("pwd"));
    names.push(String::from_str("cd"));
    names.push(String::from_str("history"));
    proof {
        let t = texts(names@);
        assert(t =~= builtin_names());
        assert forall|s: Seq<char>| t.contains(s) <==> is_builtin_name(s) by {
            if is_builtin_name(s) {
                assert(t[0] == "echo"@ && t[1] == "exit"@ && t[2] == "type"@ && t[3] == "pwd"@
                    && t[4] == "cd"@ && t[5] == "history"@);
            }
        }
    }
    names
}

/// The state of completion between two presses of the tab key: what was
/// completed last, how often in a row, and what it matched.
#[derive(Clone, Debug, PartialEq, Eq)]
pub struct BuiltinCompleter {
    pub last_prefix: String,
    pub tab_count: u8,
    pub last_matches: Vec<String>,
}

/// Whether `name` is offered for `prefix`: it begins with it and is a
/// builtin or one of the executables.
pub open spec fn is_offered(name: Seq<char>, prefix: Seq<char>, executables: Seq<Seq<char>>) -> bool {
    starts_with_seq(name, prefix) && (is_builtin_name(name) || executables.contains(name))
}

/// The count of presses after one more: one for a new beginning, one more
/// for the same, and zero after two hundred and fifty-five.
pub open spec fn next_tab_count(same: bool, count: u8) -> u8 {
    if !same {
        1
    } else if count == 255 {
        0
    } else {
        (count + 1) as u8
    }
}

/// The completions as they are shown and as they are put in: each name, and
/// the name followed by a space.
pub open spec fn candidates_for(names: Seq<Seq<char>>) -> Seq<(Seq<char>, Seq<char>)> {
    Seq::new(names.len(), |i: int| (names[i], names[i].push(' ')))
}

/// The views of pairs of strings.
pub open spec fn pairs_view(v: Seq<(String, String)>) -> Seq<(Seq<char>, Seq<char>)> {
    Seq::new(v.len(), |i: int| (v[i].0@, v[i].1@))
}

impl BuiltinCompleter {
    /// A completer that has completed nothing yet.
    pub fn new() -> (completer: BuiltinCompleter)
        ensures
            completer.last_prefix@ == Seq::<char>::empty(),
            completer.tab_count == 0,
            completer.last_matches@ == Seq::<String>::empty(),
    {
        BuiltinCompleter { last_prefix: String::new(), tab_count: 0, last_matches: Vec::new() }
    }

    /// Completes `prefix`: the names that begin with it, among the builtins
    /// and the given executables, sorted and each once. The completer
    /// remembers the beginning, what matched, and how often in a row the
    /// same beginning was asked for.
    pub fn complete(&mut self, prefix: &str, executables: &Vec<String>) -> (pairs: Vec<
        (String, String),
    >)
        ensures
            strictly_sorted(texts(final(self).last_matches@)),
            forall|s: Seq<char>|
                texts(final(self).last_matches@).contains(s) <==> is_offered(
                    s,
                    prefix@,
                    texts(executables@),
                ),
            pairs_view(pairs@) == candidates_for(texts(final(self).last_matches@)),
            final(self).last_prefix@ == prefix@,
            final(self).tab_count == next_tab_count(
                old(self).last_prefix@ == prefix@,
                old(self).tab_count,
            ),
    {
        let wanted = to_chars(prefix);
        let mut names: Vec<String> = Vec::new();
        assert(texts(names@) == Seq::<Seq<char>>::empty());
        let builtins = builtin_list();
        insert_matching(&mut names, prefix, &builtins);
        insert_matching(&mut names, prefix, executables);
        let mut pairs: Vec<(String, String)> = Vec::new();
        let mut k: usize = 0;
        while k < names.len()
            invariant
                0 <= k <= names.len(),
                pairs@.len() == k,
                forall|j: int|
                    0 <= j < k ==> (#[trigger] pairs@[j]).0@ == names@[j]@ && pairs@[j].1@
                        == names@[j]@.push(' '),
            decreases names.len() - k,
        {
            let shown = names[k].clone();
            let mut put = names[k].clone();
            put.append(" ");
            proof {
                reveal_strlit(" ");
                assert(" "@ == seq![' ']);
                assert(names@[k as int]@ + seq![' '] == names@[k as int]@.push(' '));
            }
            pairs.push((shown, put));
            k += 1;
        }
        let old_prefix = to_chars(self.last_prefix.as_str());
        if chars_equal(&old_prefix, &wanted) {
            self.tab_count = if self.tab_count == 255 {
                0
            } else {
                self.tab_count + 1
            };
        } else {
            self.tab_count = 1;
            self.last_prefix = String::from_str(prefix);
        }
        self.last_matches = names;
        assert(pairs_view(pairs@) =~= candidates_for(texts(self.last_matches@)));
        pairs
    }
}

} // verus!

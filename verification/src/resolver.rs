//! Where an external command is looked for.
//!
//! The library names the files to try, in order; whether a file is a regular
//! file that may be executed is for the caller to find out, who hands the
//! answers back as one flag for each candidate.

use vstd::prelude::*;
use vstd::string::StringExecFns;
use crate::text::{split, split_on, texts, to_chars};

verus! {

/// Whether `name` holds a slash, and so is a path of its own.
pub open spec fn is_explicit_path(name: Seq<char>) -> bool {
    exists|i: int| 0 <= i < name.len() && #[trigger] name[i] == '/'
}

/// The file named `name` in the directory `dir`.
pub open spec fn file_in(dir: Seq<char>, name: Seq<char>) -> Seq<char> {
    if dir.len() > 0 && dir.last() == '/' {
        dir + name
    } else {
        dir + seq!['/'] + name
    }
}

/// The file named `name` in each directory that is not empty, in order.
pub open spec fn files_in(dirs: Seq<Seq<char>>, name: Seq<char>) -> Seq<Seq<char>>
    decreases dirs.len(),
{
    if dirs.len() == 0 {
        Seq::empty()
    } else if dirs.last().len() == 0 {
        files_in(dirs.drop_last(), name)
    } else {
        files_in(dirs.drop_last(), name).push(file_in(dirs.last(), name))
    }
}

/// The files to try for a command: the name itself where it holds a slash,
/// and else its place in each directory of the search path, which is a list
/// of directories with colons between them.
pub open spec fn candidates(name: Seq<char>, search_path: Seq<char>) -> Seq<Seq<char>> {
    if is_explicit_path(name) {
        seq![name]
    } else {
        files_in(split_on(search_path, ':'), name)
    }
}

/// `k` is the first of the first `count` candidates whose flag is set.
pub open spec fn is_first_found(executable: Seq<bool>, count: int, k: int) -> bool {
    &&& 0 <= k < count
    &&& k < executable.len()
    &&& executable[k]
    &&& forall|j: int| 0 <= j < k ==> !#[trigger] executable[j]
}

/// None of the first `count` candidates has its flag set.
pub open spec fn none_found(executable: Seq<bool>, count: int) -> bool {
    forall|j: int| 0 <= j < count && j < executable.len() ==> !#[trigger] executable[j]
}

/// Whether `name` holds a slash.
pub fn has_slash(name: &str) -> (b: bool)
    ensures
        b == is_explicit_path(name@),
{
    let v = to_chars(name);
    let mut i: usize = 0;
    while i < v.len()
        invariant
            0 <= i <= v.len(),
            v@ == name@,
            forall|j: int| 0 <= j < i ==> v@[j] != '/',
        decreases v.len() - i,
    {
        if v[i] == '/' {
            return true;
        }
        i += 1;
    }
    false
}

/// The path of the file named `name` in the directory `dir`.
pub fn join_path(dir: &str, name: &str) -> (path: String)
    ensures
        path@ == file_in(dir@, name@),
{
    let d = to_chars(dir);
    let mut path = String::from_str(dir);
    if d.len() == 0 || d[d.len() - 1] != '/' {
        path.append("/");
        proof {
            reveal_strlit("/");
            assert("/"@ == seq!['/']);
        }
    }
    path.append(name);
    path
}

/// The files to try for a command, in the order in which they are tried.
pub fn resolve_candidates(name: &str, search_path: &str) -> (files: Vec<String>)
    ensures
        texts(files@) == candidates(name@, search_path@),
{
    let mut files: Vec<String> = Vec::new();
    if has_slash(name) {
        files.push(String::from_str(name));
        assert(texts(files@) == seq![name@]);
        return files;
    }
    let dirs = split(search_path, ':');
    let mut i: usize = 0;
    assert(texts(dirs@).take(0) == Seq::<Seq<char>>::empty());
    assert(texts(files@) == Seq::<Seq<char>>::empty());
    while i < dirs.len()
        invariant
            0 <= i <= dirs.len(),
            texts(files@) == files_in(texts(dirs@).take(i as int), name@),
        decreases dirs.len() - i,
    {
        proof {
            let t = texts(dirs@).take(i + 1);
            assert(t.drop_last() == texts(dirs@).take(i as int));
            assert(t.last() == dirs@[i as int]@);
        }
        if !dirs[i].as_str().is_empty() {
            let ghost before = files@;
            let file = join_path(dirs[i].as_str(), name);
            files.push(file);
            assert(texts(files@) == texts(before).push(file@));
        }
        i += 1;
    }
    assert(texts(dirs@).take(dirs.len() as int) == texts(dirs@));
    files
}

/// The first of the first `count` candidates that may be executed, going by
/// the flags. A candidate without a flag counts as one that may not.
pub fn pick_executable(count: usize, executable: &Vec<bool>) -> (found: Option<usize>)
    ensures
        match found {
            Some(k) => is_first_found(executable@, count as int, k as int),
            None => none_found(executable@, count as int),
        },
{
    let mut i: usize = 0;
    while i < count && i < executable.len()
        invariant
            0 <= i <= count,
            i <= executable.len(),
            forall|j: int| 0 <= j < i ==> !#[trigger] executable@[j],
        decreases count - i,
    {
        if executable[i] {
            return Some(i);
        }
        i += 1;
    }
    None
}

/// The file that a command resolves to: the first candidate that may be
/// executed, going by the flags, which stand for the candidates of
/// `resolve_candidates` in their order.
pub fn resolve(name: &str, search_path: &str, executable: &Vec<bool>) -> (file: Option<String>)
    ensures
        match file {
            Some(f) => exists|k: int|
                is_first_found(executable@, candidates(name@, search_path@).len() as int, k) && f@
                    == #[trigger] candidates(name@, search_path@)[k],
            None => none_found(executable@, candidates(name@, search_path@).len() as int),
        },
{
    let files = resolve_candidates(name, search_path);
    match pick_executable(files.len(), executable) {
        Some(k) => {
            let file = files[k].clone();
            assert(texts(files@)[k as int] == files@[k as int]@);
            Some(file)
        },
        None => None,
    }
}

/// Whether a command can be run: whether one of its candidates may be
/// executed, going by the flags.
pub fn check_for_executable(program_name: &str, search_path: &str, executable: &Vec<bool>) -> (found:
    bool)
    ensures
        found == !none_found(executable@, candidates(program_name@, search_path@).len() as int),
{
    let files = resolve_candidates(program_name, search_path);
    let picked = pick_executable(files.len(), executable);
    picked.is_some()
}

} // verus!

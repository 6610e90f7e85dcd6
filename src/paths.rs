//! Rules on repository-relative paths: which are left out of the index,
//! and the extension that decides a file's language.
use vstd::prelude::*;
use crate::text::{first_index, lemma_first_index_bound, find_from, chars_of, chars_eq, starts_with};
use crate::extract::copy_range;
use crate::language::{language_of, classify};
use crate::model::opt_view;

verus! {

#[via_fn]
proof fn components_decreases(p: Seq<char>) {
    lemma_first_index_bound(p, '/');
}

/// The `/`-separated components of a path.
pub open spec fn components(p: Seq<char>) -> Seq<Seq<char>>
    decreases p.len(),
    via components_decreases
{
    let k = first_index(p, '/');
    if k >= p.len() {
        seq![p]
    } else {
        seq![p.take(k)] + components(p.skip(k + 1))
    }
}

/// Build output, version control and tool caches.
pub open spec fn excluded_name(c: Seq<char>) -> bool {
    c == "target"@ || c == ".git"@ || c == "node_modules"@ || c == ".venv"@ || c == "__pycache__"@
}

pub open spec fn starts_with_spec(s: Seq<char>, p: Seq<char>) -> bool {
    p.len() <= s.len() && s.subrange(0, p.len() as int) == p
}

/// A hidden name, other than the index's own storage.
pub open spec fn hidden_name(c: Seq<char>) -> bool {
    c.len() > 0 && c[0] == '.' && !starts_with_spec(c, ".codemap"@)
}

pub open spec fn skipped_component(c: Seq<char>) -> bool {
    excluded_name(c) || hidden_name(c)
}

/// Whether a path runs through an excluded or hidden entry.
pub open spec fn path_skipped(p: Seq<char>) -> bool {
    exists|i: int| 0 <= i < components(p).len() && skipped_component(#[trigger] components(p)[i])
}

fn is_skipped_component(c: &[char]) -> (r: bool)
    ensures
        r == skipped_component(c@),
{
    let target = chars_of("target");
    let git = chars_of(".git");
    let node = chars_of("node_modules");
    let venv = chars_of(".venv");
    let pycache = chars_of("__pycache__");
    let own = chars_of(".codemap");
    chars_eq(c, target.as_slice()) || chars_eq(c, git.as_slice()) || chars_eq(c, node.as_slice())
        || chars_eq(c, venv.as_slice()) || chars_eq(c, pycache.as_slice()) || (c.len() > 0 && c[0]
        == '.' && !starts_with(c, own.as_slice()))
}

/// Whether the walk leaves this path out of the index.
pub fn is_skipped_path(path: &str) -> (r: bool)
    ensures
        r == path_skipped(path@),
{
    let t = chars_of(path);
    let mut start: usize = 0;
    let ghost mut done: Seq<Seq<char>> = Seq::empty();
    assert(t@.skip(0) == t@);
    assert(components(t@) == done + components(t@.skip(0)));
    loop
        invariant
            start <= t@.len(),
            t@ == path@,
            components(t@) == done + components(t@.skip(start as int)),
            forall|i: int| 0 <= i < done.len() ==> !skipped_component(#[trigger] done[i]),
        decreases t@.len() - start,
    {
        let k = find_from(t.as_slice(), start, '/');
        let seg = copy_range(t.as_slice(), start, k);
        let ghost rest = t@.skip(start as int);
        proof {
            assert(rest.take(k - start) == seg@);
            if k < t@.len() {
                assert(rest.skip(k - start + 1) == t@.skip(k + 1));
                assert(components(rest) == seq![seg@] + components(t@.skip(k + 1)));
            } else {
                assert(components(rest) == seq![rest]);
                assert(rest == seg@);
            }
        }
        if is_skipped_component(seg.as_slice()) {
            assert(components(t@)[done.len() as int] == seg@);
            return true;
        }
        if k >= t.len() {
            proof {
                assert forall|i: int| 0 <= i < components(t@).len() implies !skipped_component(
                    #[trigger] components(t@)[i],
                ) by {
                    if i < done.len() {
                        assert(components(t@)[i] == done[i]);
                    }
                }
            }
            return false;
        }
        proof {
            done = done.push(seg@);
            assert(components(t@) == done + components(t@.skip(k + 1)));
        }
        start = k + 1;
    }
}

/// The index of the last `c` in `s`, or -1 where there is none.
pub open spec fn last_index(s: Seq<char>, c: char) -> int
    decreases s.len(),
{
    if s.len() == 0 {
        -1
    } else if s.last() == c {
        s.len() - 1
    } else {
        last_index(s.drop_last(), c)
    }
}

/// The last component of a path.
pub open spec fn file_name(p: Seq<char>) -> Seq<char> {
    p.skip(last_index(p, '/') + 1)
}

/// What follows the last `.` of the file name, where that `.` is not its
/// first character.
pub open spec fn extension_of(p: Seq<char>) -> Option<Seq<char>> {
    let n = file_name(p);
    let k = last_index(n, '.');
    if k > 0 {
        Some(n.skip(k + 1))
    } else {
        None
    }
}

/// The language of the file at a path, decided by its extension.
pub open spec fn path_language(p: Seq<char>) -> Option<Seq<char>> {
    match extension_of(p) {
        Some(e) => language_of(e),
        None => None,
    }
}

proof fn lemma_last_index(s: Seq<char>, c: char, k: int)
    requires
        -1 <= k < s.len(),
        k >= 0 ==> s[k] == c,
        forall|i: int| k < i < s.len() ==> s[i] != c,
    ensures
        last_index(s, c) == k,
    decreases s.len(),
{
    if s.len() > 0 && s.last() != c {
        lemma_last_index(s.drop_last(), c, k);
    }
}

fn last_index_exec(s: &[char], c: char) -> (r: Option<usize>)
    ensures
        match r {
            Some(k) => k < s@.len() && last_index(s@, c) == k,
            None => last_index(s@, c) == -1,
        },
{
    let mut i = s.len();
    while i > 0
        invariant
            i <= s@.len(),
            forall|j: int| i <= j < s@.len() ==> s@[j] != c,
        decreases i,
    {
        if s[i - 1] == c {
            proof {
                lemma_last_index(s@, c, i - 1);
            }
            return Some(i - 1);
        }
        i = i - 1;
    }
    proof {
        lemma_last_index(s@, c, -1);
    }
    None
}

/// The extension of the file at a path, if it has one.
pub fn extension(path: &str) -> (r: Option<String>)
    ensures
        opt_view(r) == extension_of(path@),
{
    let t = chars_of(path);
    let start = match last_index_exec(t.as_slice(), '/') {
        Some(k) => k + 1,
        None => 0,
    };
    let name = copy_range(t.as_slice(), start, t.len());
    assert(name@ == file_name(path@));
    match last_index_exec(name.as_slice(), '.') {
        Some(k) => {
            if k > 0 {
                let e = copy_range(name.as_slice(), k + 1, name.len());
                assert(e@ == name@.skip(k + 1));
                Some(crate::text::string_of(e.as_slice()))
            } else {
                None
            }
        },
        None => None,
    }
}

/// The language of the file at a path, if its extension is supported.
pub fn language_of_path(path: &str) -> (r: Option<String>)
    ensures
        opt_view(r) == path_language(path@),
{
    match extension(path) {
        Some(e) => classify(e.as_str()),
        None => None,
    }
}

} // verus!

//! Maps a file extension to a language label.
use vstd::prelude::*;
use crate::text::{lower_seq, lower, chars_of};
use crate::model::opt_view;

verus! {

pub open spec fn is2(e: Seq<char>, a: char, b: char) -> bool {
    e.len() == 2 && e[0] == a && e[1] == b
}

pub open spec fn is3(e: Seq<char>, a: char, b: char, c: char) -> bool {
    e.len() == 3 && e[0] == a && e[1] == b && e[2] == c
}

/// The language label of an extension, compared without regard to ASCII case.
pub open spec fn language_of(ext: Seq<char>) -> Option<Seq<char>> {
    let e = lower_seq(ext);
    if is2(e, 'r', 's') {
        Some("rust"@)
    } else if is2(e, 'p', 'y') {
        Some("python"@)
    } else if is2(e, 'j', 's') {
        Some("javascript"@)
    } else if is2(e, 't', 's') {
        Some("typescript"@)
    } else if e.len() == 4 && e[0] == 'j' && e[1] == 'a' && e[2] == 'v' && e[3] == 'a' {
        Some("java"@)
    } else if is2(e, 'g', 'o') {
        Some("go"@)
    } else if e.len() == 1 && e[0] == 'c' {
        Some("c"@)
    } else if is3(e, 'c', 'p', 'p') || is2(e, 'c', 'c') || is3(e, 'c', 'x', 'x') || is3(
        e,
        'c',
        '+',
        '+',
    ) {
        Some("cpp"@)
    } else {
        None
    }
}

pub fn lower_chars(s: &str) -> (r: Vec<char>)
    ensures
        r@ == lower_seq(s@),
{
    let cs = chars_of(s);
    let mut r: Vec<char> = Vec::new();
    let mut i: usize = 0;
    while i < cs.len()
        invariant
            i <= cs@.len(),
            cs@ == s@,
            r@ == lower_seq(cs@.take(i as int)),
        decreases cs@.len() - i,
    {
        r.push(lower(cs[i]));
        assert(lower_seq(cs@.take(i + 1)) == lower_seq(cs@.take(i as int)).push(
            crate::text::lower_spec(cs@[i as int]),
        ));
        i = i + 1;
    }
    assert(cs@.take(cs@.len() as int) == cs@);
    r
}

/// The language label for a file extension, if the extension is supported.
pub fn classify(extension: &str) -> (r: Option<String>)
    ensures
        opt_view(r) == language_of(extension@),
{
    let e = lower_chars(extension);
    let n = e.len();
    if n == 2 && e[0] == 'r' && e[1] == 's' {
        Some(String::from_str("rust"))
    } else if n == 2 && e[0] == 'p' && e[1] == 'y' {
        Some(String::from_str("python"))
    } else if n == 2 && e[0] == 'j' && e[1] == 's' {
        Some(String::from_str("javascript"))
    } else if n == 2 && e[0] == 't' && e[1] == 's' {
        Some(String::from_str("typescript"))
    } else if n == 4 && e[0] == 'j' && e[1] == 'a' && e[2] == 'v' && e[3] == 'a' {
        Some(String::from_str("java"))
    } else if n == 2 && e[0] == 'g' && e[1] == 'o' {
        Some(String::from_str("go"))
    } else if n == 1 && e[0] == 'c' {
        Some(String::from_str("c"))
    } else if (n == 3 && e[0] == 'c' && e[1] == 'p' && e[2] == 'p') || (n == 2 && e[0] == 'c' && e[1]
        == 'c') || (n == 3 && e[0] == 'c' && e[1] == 'x' && e[2] == 'x') || (n == 3 && e[0] == 'c'
        && e[1] == '+' && e[2] == '+') {
        Some(String::from_str("cpp"))
    } else {
        None
    }
}

} // verus!

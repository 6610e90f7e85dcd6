//! Finds function headers in Rust source and hashes each function's text.
use vstd::prelude::*;
use crate::text::{is_space_spec, is_word_spec, is_space, is_word, first_index, find_from, lemma_first_index_bound, string_of, chars_of};
use crate::digest::{digest, digest_spec};
use crate::model::{FunctionRecord, FunctionView, fns_view};

verus! {

pub open spec fn skip_spaces(l: Seq<char>, i: int) -> int
    decreases l.len() - i,
{
    if 0 <= i < l.len() && is_space_spec(l[i]) {
        skip_spaces(l, i + 1)
    } else {
        i
    }
}

pub open spec fn skip_word(l: Seq<char>, i: int) -> int
    decreases l.len() - i,
{
    if 0 <= i < l.len() && is_word_spec(l[i]) {
        skip_word(l, i + 1)
    } else {
        i
    }
}

/// `pub` followed by whitespace at `i`.
pub open spec fn pub_at(l: Seq<char>, i: int) -> bool {
    0 <= i && i + 3 < l.len() && l[i] == 'p' && l[i + 1] == 'u' && l[i + 2] == 'b' && is_space_spec(
        l[i + 3],
    )
}

/// `async` followed by whitespace at `i`.
pub open spec fn async_at(l: Seq<char>, i: int) -> bool {
    0 <= i && i + 5 < l.len() && l[i] == 'a' && l[i + 1] == 's' && l[i + 2] == 'y' && l[i + 3]
        == 'n' && l[i + 4] == 'c' && is_space_spec(l[i + 5])
}

/// `fn` followed by whitespace at `i`.
pub open spec fn fn_at(l: Seq<char>, i: int) -> bool {
    0 <= i && i + 2 < l.len() && l[i] == 'f' && l[i + 1] == 'n' && is_space_spec(l[i + 2])
}

/// The function name declared by a line of the form: optional whitespace,
/// optional `pub` and whitespace, optional `async` and whitespace, `fn`,
/// whitespace, identifier. Anything may follow the identifier.
pub open spec fn header_name(l: Seq<char>) -> Option<Seq<char>> {
    let a = skip_spaces(l, 0);
    let b = if pub_at(l, a) {
        skip_spaces(l, a + 3)
    } else {
        a
    };
    let c = if async_at(l, b) {
        skip_spaces(l, b + 5)
    } else {
        b
    };
    if fn_at(l, c) {
        let d = skip_spaces(l, c + 2);
        let e = skip_word(l, d);
        if e > d {
            Some(l.subrange(d, e))
        } else {
            None
        }
    } else {
        None
    }
}

/// Where a function body that starts at `i` ends: at the end of the first
/// line after which at least one `{` was seen and the `{` and `}` counted so
/// far balance, or at the end of the text.
pub open spec fn body_end(t: Seq<char>, i: int, opens: nat, closes: nat) -> int
    decreases t.len() - i,
{
    if i < 0 || i >= t.len() {
        t.len() as int
    } else if t[i] == '\n' && opens > 0 && opens == closes {
        i
    } else {
        body_end(
            t,
            i + 1,
            if t[i] == '{' {
                opens + 1
            } else {
                opens
            },
            if t[i] == '}' {
                closes + 1
            } else {
                closes
            },
        )
    }
}

/// The hashed text of a function whose header line starts at `p`.
pub open spec fn body_text(t: Seq<char>, p: int) -> Seq<char> {
    t.subrange(p, body_end(t, p, 0, 0))
}

pub open spec fn line_end(t: Seq<char>, p: int) -> int {
    p + first_index(t.skip(p), '\n')
}

/// The record for the line that starts at `p`, numbered `idx + 1`.
pub open spec fn record_at(t: Seq<char>, p: int, idx: nat) -> Option<FunctionView> {
    match header_name(t.subrange(p, line_end(t, p))) {
        Some(n) => Some(
            FunctionView {
                name: n,
                line: idx + 1,
                body_hash: digest_spec(body_text(t, p)),
                summary: None,
            },
        ),
        None => None,
    }
}

pub open spec fn opt_seq<A>(o: Option<A>) -> Seq<A> {
    match o {
        Some(a) => seq![a],
        None => Seq::empty(),
    }
}

#[via_fn]
proof fn records_from_decreases(t: Seq<char>, p: int, idx: nat) {
    if 0 <= p <= t.len() {
        lemma_first_index_bound(t.skip(p), '\n');
    }
}

/// The records of the lines from the one that starts at `p` (numbered
/// `idx + 1`) to the end of the text.
pub open spec fn records_from(t: Seq<char>, p: int, idx: nat) -> Seq<FunctionView>
    decreases t.len() - p,
    via records_from_decreases
{
    if p < 0 || p > t.len() {
        Seq::empty()
    } else {
        let e = line_end(t, p);
        let here = opt_seq(record_at(t, p, idx));
        if e >= t.len() {
            here
        } else {
            here + records_from(t, e + 1, idx + 1)
        }
    }
}

pub open spec fn is_rust_label(l: Seq<char>) -> bool {
    l == "rust"@
}

/// The functions of a source text in a language: for Rust, one record per
/// header line, in order; none for any other language.
pub open spec fn extract_spec(text: Seq<char>, language: Seq<char>) -> Seq<FunctionView> {
    if is_rust_label(language) {
        records_from(text, 0, 0)
    } else {
        Seq::empty()
    }
}

/// The first position at or after `i` that holds no whitespace.
pub fn skip_spaces_exec(l: &[char], i: usize) -> (r: usize)
    requires
        i <= l@.len(),
    ensures
        r == skip_spaces(l@, i as int),
        i <= r <= l@.len(),
{
    let mut j = i;
    while j < l.len() && is_space(l[j])
        invariant
            i <= j <= l@.len(),
            skip_spaces(l@, i as int) == skip_spaces(l@, j as int),
        decreases l@.len() - j,
    {
        j = j + 1;
    }
    j
}

fn skip_word_exec(l: &[char], i: usize) -> (r: usize)
    requires
        i <= l@.len(),
    ensures
        r == skip_word(l@, i as int),
        i <= r <= l@.len(),
{
    let mut j = i;
    while j < l.len() && is_word(l[j])
        invariant
            i <= j <= l@.len(),
            skip_word(l@, i as int) == skip_word(l@, j as int),
        decreases l@.len() - j,
    {
        j = j + 1;
    }
    j
}

/// A copy of `v[a..b]`.
pub fn copy_range(v: &[char], a: usize, b: usize) -> (r: Vec<char>)
    requires
        a <= b <= v@.len(),
    ensures
        r@ == v@.subrange(a as int, b as int),
{
    let mut r: Vec<char> = Vec::new();
    let mut i = a;
    while i < b
        invariant
            a <= i <= b <= v@.len(),
            r@ == v@.subrange(a as int, i as int),
        decreases b - i,
    {
        r.push(v[i]);
        i = i + 1;
    }
    r
}

/// The name declared by a header line, if the line is one.
pub fn header_name_exec(l: &[char]) -> (r: Option<Vec<char>>)
    ensures
        match r {
            Some(n) => header_name(l@) == Some(n@) && l@.len() > 2,
            None => header_name(l@) is None,
        },
{
    let n = l.len();
    let a = skip_spaces_exec(l, 0);
    let b = if n - a > 3 && l[a] == 'p' && l[a + 1] == 'u' && l[a + 2] == 'b' && is_space(l[a + 3]) {
        skip_spaces_exec(l, a + 3)
    } else {
        a
    };
    let c = if n - b > 5 && l[b] == 'a' && l[b + 1] == 's' && l[b + 2] == 'y' && l[b + 3] == 'n'
        && l[b + 4] == 'c' && is_space(l[b + 5]) {
        skip_spaces_exec(l, b + 5)
    } else {
        b
    };
    if n - c > 2 && l[c] == 'f' && l[c + 1] == 'n' && is_space(l[c + 2]) {
        let d = skip_spaces_exec(l, c + 2);
        let e = skip_word_exec(l, d);
        if e > d {
            Some(copy_range(l, d, e))
        } else {
            None
        }
    } else {
        None
    }
}

/// The end of the body of the function whose header line starts at `p`.
pub fn body_end_exec(t: &[char], p: usize) -> (r: usize)
    requires
        p <= t@.len(),
    ensures
        r == body_end(t@, p as int, 0, 0),
        p <= r <= t@.len(),
{
    let mut i = p;
    let mut opens: usize = 0;
    let mut closes: usize = 0;
    while i < t.len()
        invariant
            p <= i <= t@.len(),
            opens + closes <= i - p,
            body_end(t@, p as int, 0, 0) == body_end(t@, i as int, opens as nat, closes as nat),
        decreases t@.len() - i,
    {
        let c = t[i];
        if c == '\n' && opens > 0 && opens == closes {
            proof {
                lemma_body_end_bound(t@, p as int, 0, 0);
            }
            return i;
        }
        if c == '{' {
            opens = opens + 1;
        }
        if c == '}' {
            closes = closes + 1;
        }
        i = i + 1;
    }
    proof {
        lemma_body_end_bound(t@, p as int, 0, 0);
    }
    i
}

proof fn lemma_body_end_bound(t: Seq<char>, i: int, opens: nat, closes: nat)
    requires
        0 <= i <= t.len(),
    ensures
        i <= body_end(t, i, opens, closes) <= t.len(),
    decreases t.len() - i,
{
    if i < t.len() && !(t[i] == '\n' && opens > 0 && opens == closes) {
        lemma_body_end_bound(
            t,
            i + 1,
            if t[i] == '{' {
                opens + 1
            } else {
                opens
            },
            if t[i] == '}' {
                closes + 1
            } else {
                closes
            },
        );
    }
}

/// Extraction depends on the text and the language alone: equal inputs
/// give equal records, with equal names, lines and hashes in equal order.
pub proof fn lemma_extract_deterministic(text_a: Seq<char>, lang_a: Seq<char>, text_b: Seq<char>, lang_b: Seq<char>)
    requires
        text_a == text_b,
        lang_a == lang_b,
    ensures
        extract_spec(text_a, lang_a) == extract_spec(text_b, lang_b),
        extract_spec(text_a, lang_a).len() == extract_spec(text_b, lang_b).len(),
        forall|i: int|
            0 <= i < extract_spec(text_a, lang_a).len() ==> #[trigger] extract_spec(text_a, lang_a)[i].body_hash
                == extract_spec(text_b, lang_b)[i].body_hash,
{
}

/// Extracted records carry no summary.
pub proof fn lemma_records_unsummarized(t: Seq<char>, p: int, idx: nat)
    ensures
        forall|k: int|
            0 <= k < records_from(t, p, idx).len() ==> (#[trigger] records_from(t, p, idx)[k]).summary
                is None,
    decreases t.len() - p,
{
    if 0 <= p <= t.len() {
        lemma_first_index_bound(t.skip(p), '\n');
        let e = line_end(t, p);
        if e < t.len() {
            lemma_records_unsummarized(t, e + 1, idx + 1);
            let here = opt_seq(record_at(t, p, idx));
            let rest = records_from(t, e + 1, idx + 1);
            assert(records_from(t, p, idx) == here + rest);
            assert forall|k: int| 0 <= k < records_from(t, p, idx).len() implies (
            #[trigger] records_from(t, p, idx)[k]).summary is None by {
                if k >= here.len() {
                    assert(records_from(t, p, idx)[k] == rest[k - here.len()]);
                }
            }
        }
    }
}

/// Each record comes from a header line: some line start and line index
/// give it.
pub proof fn lemma_record_source(t: Seq<char>, p: int, idx: nat, k: int)
    requires
        0 <= k < records_from(t, p, idx).len(),
    ensures
        exists|q: int, m: nat| #[trigger] record_at(t, q, m) == Some(records_from(t, p, idx)[k]),
    decreases t.len() - p,
{
    lemma_first_index_bound(t.skip(p), '\n');
    let e = line_end(t, p);
    let here = opt_seq(record_at(t, p, idx));
    if k < here.len() {
        assert(record_at(t, p, idx) == Some(records_from(t, p, idx)[k]));
    } else {
        let rest = records_from(t, e + 1, idx + 1);
        assert(records_from(t, p, idx) == here + rest);
        assert(records_from(t, p, idx)[k] == rest[k - here.len()]);
        lemma_record_source(t, e + 1, idx + 1, k - here.len());
    }
}

/// Hash stability on extracted records: the `ka`-th record extracted from
/// one text and the `kb`-th from another have equal hashes wherever the
/// header lines they come from open equal hashed spans. Such header lines
/// exist for every record (`lemma_record_source`).
pub proof fn lemma_extracted_hash_stable(
    text_a: Seq<char>,
    ka: int,
    start_a: int,
    index_a: nat,
    text_b: Seq<char>,
    kb: int,
    start_b: int,
    index_b: nat,
)
    requires
        0 <= ka < extract_spec(text_a, "rust"@).len(),
        0 <= kb < extract_spec(text_b, "rust"@).len(),
        record_at(text_a, start_a, index_a) == Some(extract_spec(text_a, "rust"@)[ka]),
        record_at(text_b, start_b, index_b) == Some(extract_spec(text_b, "rust"@)[kb]),
        body_text(text_a, start_a) == body_text(text_b, start_b),
    ensures
        extract_spec(text_a, "rust"@)[ka].body_hash == extract_spec(text_b, "rust"@)[kb].body_hash,
{
}

fn extract_rust(t: &Vec<char>) -> (r: Vec<FunctionRecord>)
    ensures
        fns_view(r@) == records_from(t@, 0, 0),
{
    let mut out: Vec<FunctionRecord> = Vec::new();
    let mut p: usize = 0;
    let mut idx: usize = 0;
    assert(fns_view(out@) + records_from(t@, 0, 0) == records_from(t@, 0, 0));
    loop
        invariant_except_break
            records_from(t@, 0, 0) == fns_view(out@) + records_from(t@, p as int, idx as nat),
        invariant
            p <= t@.len(),
            idx <= p,
        ensures
            records_from(t@, 0, 0) == fns_view(out@),
        decreases t@.len() - p,
    {
        let e = find_from(t.as_slice(), p, '\n');
        let line = copy_range(t.as_slice(), p, e);
        let ghost here = opt_seq(record_at(t@, p as int, idx as nat));
        let ghost before = fns_view(out@);
        match header_name_exec(line.as_slice()) {
            Some(name) => {
                let end = body_end_exec(t.as_slice(), p);
                let body = copy_range(t.as_slice(), p, end);
                let text = string_of(body.as_slice());
                let h = digest(text.as_str());
                let rec = FunctionRecord {
                    name: string_of(name.as_slice()),
                    line: idx + 1,
                    body_hash: h,
                    summary: None,
                };
                out.push(rec);
                assert(fns_view(out@) == before.push(rec@));
                assert(here == seq![rec@]);
            },
            None => {
                assert(here == Seq::<FunctionView>::empty());
            },
        }
        assert(fns_view(out@) == before + here);
        if e >= t.len() {
            assert(records_from(t@, p as int, idx as nat) == here);
            assert(records_from(t@, 0, 0) == fns_view(out@));
            break;
        }
        assert(records_from(t@, p as int, idx as nat) == here + records_from(
            t@,
            e + 1,
            (idx + 1) as nat,
        ));
        p = e + 1;
        idx = idx + 1;
    }
    out
}

/// The function records of a source text in the given language.
pub fn extract(source: &str, language: &str) -> (r: Vec<FunctionRecord>)
    ensures
        fns_view(r@) == extract_spec(source@, language@),
{
    let lang = chars_of(language);
    proof {
        reveal_strlit("rust");
    }
    if !(lang.len() == 4 && lang[0] == 'r' && lang[1] == 'u' && lang[2] == 's' && lang[3] == 't') {
        assert(!is_rust_label(language@));
        return Vec::new();
    }
    assert(language@ =~= "rust"@);
    let t = chars_of(source);
    extract_rust(&t)
}

} // verus!

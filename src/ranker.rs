//! Entry-point ranking: the order in which files are offered as
//! candidates, the heuristic ranking used when no ranker answered, snippet
//! truncation, the ranking prompt, and the acceptance of a ranker's reply.
use vstd::prelude::*;
use crate::text::{
    lower_seq, contains_spec, ends_with_spec, lex_lt, chars_of, chars_eq, contains, ends_with,
    lex_less, string_of,
};
use crate::language::lower_chars;
use crate::paths::starts_with_spec;
use crate::model::{ContextView, EntryPoint, EntryView, FileView, ProjectContext, entries_view, find_key, has_key, strings_view};
use vstd::utf8::{encode_utf8, is_char_boundary};
use vstd::string::StringSliceAdditionalSpecFns;
use crate::extract::copy_range;

verus! {

pub open spec fn cview(s: Seq<Vec<char>>) -> Seq<Seq<char>> {
    s.map_values(|v: Vec<char>| v@)
}

pub open spec fn paths_of(files: Seq<(Seq<char>, FileView)>) -> Seq<Seq<char>> {
    files.map_values(|p: (Seq<char>, FileView)| p.0)
}

pub open spec fn is_readme(p: Seq<char>) -> bool {
    ends_with_spec(lower_seq(p), "readme.md"@) || ends_with_spec(lower_seq(p), "readme"@)
}

pub open spec fn is_bin_path(p: Seq<char>) -> bool {
    starts_with_spec(p, "src/bin/"@)
}

pub open spec fn has_keyword(p: Seq<char>) -> bool {
    let l = lower_seq(p);
    contains_spec(l, "route"@) || contains_spec(l, "router"@) || contains_spec(l, "handler"@)
        || contains_spec(l, "server"@) || contains_spec(l, "controller"@) || contains_spec(l, "cli"@)
        || contains_spec(l, "command"@)
}

/// The first README path, if any.
pub open spec fn first_readme(ps: Seq<Seq<char>>) -> Seq<Seq<char>>
    decreases ps.len(),
{
    if ps.len() == 0 {
        Seq::empty()
    } else if is_readme(ps[0]) {
        seq![ps[0]]
    } else {
        first_readme(ps.drop_first())
    }
}

/// `src/main.rs` and `src/lib.rs`, those present, in this order.
pub open spec fn canonical_roots(ps: Seq<Seq<char>>) -> Seq<Seq<char>> {
    (if ps.contains("src/main.rs"@) {
        seq!["src/main.rs"@]
    } else {
        Seq::empty()
    }) + (if ps.contains("src/lib.rs"@) {
        seq!["src/lib.rs"@]
    } else {
        Seq::empty()
    })
}

pub open spec fn bin_paths(ps: Seq<Seq<char>>) -> Seq<Seq<char>>
    decreases ps.len(),
{
    if ps.len() == 0 {
        Seq::empty()
    } else if is_bin_path(ps.last()) {
        bin_paths(ps.drop_last()).push(ps.last())
    } else {
        bin_paths(ps.drop_last())
    }
}

pub open spec fn keyword_paths(ps: Seq<Seq<char>>) -> Seq<Seq<char>>
    decreases ps.len(),
{
    if ps.len() == 0 {
        Seq::empty()
    } else if has_keyword(ps.last()) {
        keyword_paths(ps.drop_last()).push(ps.last())
    } else {
        keyword_paths(ps.drop_last())
    }
}

/// The index of the least path; the first such where several are equal.
pub open spec fn min_index(s: Seq<Seq<char>>) -> int
    decreases s.len(),
{
    if s.len() <= 1 {
        0
    } else {
        let k = min_index(s.drop_last());
        if lex_lt(s.last(), s[k]) {
            s.len() - 1
        } else {
            k
        }
    }
}

pub proof fn lemma_min_index(s: Seq<Seq<char>>)
    ensures
        s.len() > 0 ==> 0 <= min_index(s) < s.len(),
    decreases s.len(),
{
    if s.len() > 1 {
        lemma_min_index(s.drop_last());
    }
}

#[via_fn]
proof fn lex_sort_decreases(s: Seq<Seq<char>>) {
    lemma_min_index(s);
}

/// The paths in lexicographic order (selection of the least, repeatedly).
pub open spec fn lex_sort(s: Seq<Seq<char>>) -> Seq<Seq<char>>
    decreases s.len(),
    via lex_sort_decreases
{
    if s.len() == 0 {
        Seq::empty()
    } else {
        let k = min_index(s);
        seq![s[k]] + lex_sort(s.remove(k))
    }
}

/// The index of the first path with the most functions.
pub open spec fn max_index(s: Seq<(Seq<char>, nat)>) -> int
    decreases s.len(),
{
    if s.len() <= 1 {
        0
    } else {
        let k = max_index(s.drop_last());
        if s.last().1 > s[k].1 {
            s.len() - 1
        } else {
            k
        }
    }
}

pub proof fn lemma_max_index(s: Seq<(Seq<char>, nat)>)
    ensures
        s.len() > 0 ==> 0 <= max_index(s) < s.len(),
    decreases s.len(),
{
    if s.len() > 1 {
        lemma_max_index(s.drop_last());
    }
}

#[via_fn]
proof fn count_sort_decreases(s: Seq<(Seq<char>, nat)>) {
    lemma_max_index(s);
}

/// The paths by descending function count, ties in the order given.
pub open spec fn count_sort(s: Seq<(Seq<char>, nat)>) -> Seq<Seq<char>>
    decreases s.len(),
    via count_sort_decreases
{
    if s.len() == 0 {
        Seq::empty()
    } else {
        let k = max_index(s);
        seq![s[k].0] + count_sort(s.remove(k))
    }
}

pub open spec fn counts_of(files: Seq<(Seq<char>, FileView)>) -> Seq<(Seq<char>, nat)> {
    files.map_values(|p: (Seq<char>, FileView)| (p.0, p.1.functions.len()))
}

/// `s` without repeats, first occurrences kept.
pub open spec fn dedup(s: Seq<Seq<char>>) -> Seq<Seq<char>>
    decreases s.len(),
{
    if s.len() == 0 {
        Seq::empty()
    } else {
        let d = dedup(s.drop_last());
        if d.contains(s.last()) {
            d
        } else {
            d.push(s.last())
        }
    }
}

/// Every file, once, by priority: a README, the canonical roots, the
/// binaries under `src/bin/` sorted, paths that name a routing or command
/// concern sorted, then the rest by descending function count.
pub open spec fn candidate_order(files: Seq<(Seq<char>, FileView)>) -> Seq<Seq<char>> {
    let ps = paths_of(files);
    dedup(
        first_readme(ps) + canonical_roots(ps) + lex_sort(bin_paths(ps)) + lex_sort(
            keyword_paths(ps),
        ) + count_sort(counts_of(files)),
    )
}

/// The first `max_files` candidates.
pub open spec fn candidates_spec(files: Seq<(Seq<char>, FileView)>, max_files: nat) -> Seq<Seq<char>> {
    let o = candidate_order(files);
    if max_files < o.len() {
        o.take(max_files as int)
    } else {
        o
    }
}

fn copy_chars(v: &Vec<char>) -> (r: Vec<char>)
    ensures
        r@ == v@,
{
    let r = copy_range(v.as_slice(), 0, v.len());
    assert(v@.subrange(0, v@.len() as int) == v@);
    r
}

fn is_readme_exec(p: &Vec<char>) -> (r: bool)
    ensures
        r == is_readme(p@),
{
    let l = lower_chars_of(p);
    let a = chars_of("readme.md");
    let b = chars_of("readme");
    ends_with(l.as_slice(), a.as_slice()) || ends_with(l.as_slice(), b.as_slice())
}

fn lower_chars_of(p: &Vec<char>) -> (r: Vec<char>)
    ensures
        r@ == lower_seq(p@),
{
    let s = string_of(p.as_slice());
    lower_chars(s.as_str())
}

fn has_keyword_exec(p: &Vec<char>) -> (r: bool)
    ensures
        r == has_keyword(p@),
{
    let l = lower_chars_of(p);
    let l = l.as_slice();
    let k1 = chars_of("route");
    let k2 = chars_of("router");
    let k3 = chars_of("handler");
    let k4 = chars_of("server");
    let k5 = chars_of("controller");
    let k6 = chars_of("cli");
    let k7 = chars_of("command");
    contains(l, k1.as_slice()) || contains(l, k2.as_slice()) || contains(l, k3.as_slice())
        || contains(l, k4.as_slice()) || contains(l, k5.as_slice()) || contains(l, k6.as_slice())
        || contains(l, k7.as_slice())
}

fn member(s: &Vec<Vec<char>>, x: &Vec<char>) -> (r: bool)
    ensures
        r == cview(s@).contains(x@),
{
    let mut i: usize = 0;
    while i < s.len()
        invariant
            i <= s@.len(),
            forall|j: int| 0 <= j < i ==> cview(s@)[j] != x@,
        decreases s@.len() - i,
    {
        if chars_eq(s[i].as_slice(), x.as_slice()) {
            assert(cview(s@)[i as int] == x@);
            return true;
        }
        i = i + 1;
    }
    false
}

fn first_readme_exec(ps: &Vec<Vec<char>>) -> (r: Vec<Vec<char>>)
    ensures
        cview(r@) == first_readme(cview(ps@)),
{
    let ghost all = cview(ps@);
    let mut i: usize = 0;
    assert(all.skip(0) == all);
    while i < ps.len()
        invariant
            i <= ps@.len(),
            all == cview(ps@),
            first_readme(all) == first_readme(all.skip(i as int)),
        decreases ps@.len() - i,
    {
        assert(all.skip(i as int)[0] == all[i as int]);
        if is_readme_exec(&ps[i]) {
            let mut r: Vec<Vec<char>> = Vec::new();
            r.push(copy_chars(&ps[i]));
            assert(cview(r@) =~= seq![all[i as int]]);
            return r;
        }
        assert(all.skip(i as int).drop_first() == all.skip(i + 1));
        i = i + 1;
    }
    let r: Vec<Vec<char>> = Vec::new();
    assert(cview(r@) =~= Seq::<Seq<char>>::empty());
    r
}

fn roots_exec(ps: &Vec<Vec<char>>) -> (r: Vec<Vec<char>>)
    ensures
        cview(r@) == canonical_roots(cview(ps@)),
{
    let mut r: Vec<Vec<char>> = Vec::new();
    let main = chars_of("src/main.rs");
    let lib = chars_of("src/lib.rs");
    let has_main = member(ps, &main);
    let has_lib = member(ps, &lib);
    if has_main {
        r.push(main);
    }
    if has_lib {
        r.push(lib);
    }
    assert(cview(r@) =~= canonical_roots(cview(ps@)));
    r
}

fn bin_paths_exec(ps: &Vec<Vec<char>>) -> (r: Vec<Vec<char>>)
    ensures
        cview(r@) == bin_paths(cview(ps@)),
{
    let ghost all = cview(ps@);
    let prefix = chars_of("src/bin/");
    let mut r: Vec<Vec<char>> = Vec::new();
    let mut i: usize = 0;
    while i < ps.len()
        invariant
            i <= ps@.len(),
            all == cview(ps@),
            prefix@ == "src/bin/"@,
            cview(r@) == bin_paths(all.take(i as int)),
        decreases ps@.len() - i,
    {
        assert(all.take(i + 1).drop_last() == all.take(i as int));
        assert(all.take(i + 1).last() == all[i as int]);
        if crate::text::starts_with(ps[i].as_slice(), prefix.as_slice()) {
            let ghost before = cview(r@);
            let c = copy_chars(&ps[i]);
            r.push(c);
            assert(cview(r@) == before.push(all[i as int]));
        }
        i = i + 1;
    }
    assert(all.take(all.len() as int) == all);
    r
}

fn keyword_paths_exec(ps: &Vec<Vec<char>>) -> (r: Vec<Vec<char>>)
    ensures
        cview(r@) == keyword_paths(cview(ps@)),
{
    let ghost all = cview(ps@);
    let mut r: Vec<Vec<char>> = Vec::new();
    let mut i: usize = 0;
    while i < ps.len()
        invariant
            i <= ps@.len(),
            all == cview(ps@),
            cview(r@) == keyword_paths(all.take(i as int)),
        decreases ps@.len() - i,
    {
        assert(all.take(i + 1).drop_last() == all.take(i as int));
        assert(all.take(i + 1).last() == all[i as int]);
        if has_keyword_exec(&ps[i]) {
            let ghost before = cview(r@);
            let c = copy_chars(&ps[i]);
            r.push(c);
            assert(cview(r@) == before.push(all[i as int]));
        }
        i = i + 1;
    }
    assert(all.take(all.len() as int) == all);
    r
}

fn min_index_exec(s: &Vec<Vec<char>>) -> (r: usize)
    requires
        s@.len() > 0,
    ensures
        r == min_index(cview(s@)),
        r < s@.len(),
{
    let ghost v = cview(s@);
    let mut best: usize = 0;
    let mut i: usize = 1;
    assert(v.take(1).len() == 1);
    while i < s.len()
        invariant
            1 <= i <= s@.len(),
            v == cview(s@),
            best < i,
            best == min_index(v.take(i as int)),
        decreases s@.len() - i,
    {
        assert(v.take(i + 1).drop_last() == v.take(i as int));
        assert(v.take(i + 1).last() == v[i as int]);
        assert(v.take(i + 1)[best as int] == v[best as int]);
        if lex_less(s[i].as_slice(), s[best].as_slice()) {
            best = i;
        }
        i = i + 1;
    }
    assert(v.take(v.len() as int) == v);
    best
}

fn lex_sort_exec(v: Vec<Vec<char>>) -> (r: Vec<Vec<char>>)
    ensures
        cview(r@) == lex_sort(cview(v@)),
{
    let ghost orig = cview(v@);
    let mut rem = v;
    let mut out: Vec<Vec<char>> = Vec::new();
    assert(cview(out@) + lex_sort(cview(rem@)) =~= lex_sort(orig));
    while rem.len() > 0
        invariant
            lex_sort(orig) == cview(out@) + lex_sort(cview(rem@)),
        decreases rem@.len(),
    {
        let ghost before = cview(rem@);
        let ghost ob = cview(out@);
        let k = min_index_exec(&rem);
        let x = rem.remove(k);
        assert(cview(rem@) =~= before.remove(k as int));
        out.push(x);
        assert(cview(out@) =~= ob.push(before[k as int]));
        assert(lex_sort(before) == seq![before[k as int]] + lex_sort(before.remove(k as int)));
        assert(cview(out@) + lex_sort(cview(rem@)) =~= ob + lex_sort(before));
    }
    assert(lex_sort(cview(rem@)) =~= Seq::<Seq<char>>::empty());
    assert(cview(out@) + Seq::<Seq<char>>::empty() =~= cview(out@));
    out
}

pub open spec fn nview(s: Seq<(Vec<char>, usize)>) -> Seq<(Seq<char>, nat)> {
    s.map_values(|p: (Vec<char>, usize)| (p.0@, p.1 as nat))
}

fn max_index_exec(s: &Vec<(Vec<char>, usize)>) -> (r: usize)
    requires
        s@.len() > 0,
    ensures
        r == max_index(nview(s@)),
        r < s@.len(),
{
    let ghost v = nview(s@);
    let mut best: usize = 0;
    let mut i: usize = 1;
    assert(v.take(1).len() == 1);
    while i < s.len()
        invariant
            1 <= i <= s@.len(),
            v == nview(s@),
            best < i,
            best == max_index(v.take(i as int)),
        decreases s@.len() - i,
    {
        assert(v.take(i + 1).drop_last() == v.take(i as int));
        assert(v.take(i + 1).last() == v[i as int]);
        assert(v.take(i + 1)[best as int] == v[best as int]);
        if s[i].1 > s[best].1 {
            best = i;
        }
        i = i + 1;
    }
    assert(v.take(v.len() as int) == v);
    best
}

fn count_sort_exec(v: Vec<(Vec<char>, usize)>) -> (r: Vec<Vec<char>>)
    ensures
        cview(r@) == count_sort(nview(v@)),
{
    let ghost orig = nview(v@);
    let mut rem = v;
    let mut out: Vec<Vec<char>> = Vec::new();
    assert(cview(out@) + count_sort(nview(rem@)) =~= count_sort(orig));
    while rem.len() > 0
        invariant
            count_sort(orig) == cview(out@) + count_sort(nview(rem@)),
        decreases rem@.len(),
    {
        let ghost before = nview(rem@);
        let ghost ob = cview(out@);
        let k = max_index_exec(&rem);
        let x = rem.remove(k);
        assert(nview(rem@) =~= before.remove(k as int));
        out.push(x.0);
        assert(cview(out@) =~= ob.push(before[k as int].0));
        assert(count_sort(before) == seq![before[k as int].0] + count_sort(before.remove(k as int)));
        assert(cview(out@) + count_sort(nview(rem@)) =~= ob + count_sort(before));
    }
    assert(count_sort(nview(rem@)) =~= Seq::<Seq<char>>::empty());
    assert(cview(out@) + Seq::<Seq<char>>::empty() =~= cview(out@));
    out
}

fn dedup_exec(v: Vec<Vec<char>>) -> (r: Vec<Vec<char>>)
    ensures
        cview(r@) == dedup(cview(v@)),
{
    let ghost all = cview(v@);
    let mut out: Vec<Vec<char>> = Vec::new();
    for x in it: v
        invariant
            all == cview(it.seq()),
            cview(out@) == dedup(all.take(it.index() as int)),
    {
        let ghost i = it.index() as int;
        assert(all.take(i + 1).drop_last() == all.take(i));
        assert(all.take(i + 1).last() == all[i]);
        assert(x@ == all[i]);
        if !member(&out, &x) {
            let ghost before = cview(out@);
            out.push(x);
            assert(cview(out@) == before.push(all[i]));
        }
    }
    assert(all.take(all.len() as int) == all);
    out
}

fn append_all(a: &mut Vec<Vec<char>>, b: Vec<Vec<char>>)
    ensures
        cview(final(a)@) == cview(old(a)@) + cview(b@),
{
    let mut b = b;
    let ghost bv = cview(b@);
    let ghost av = cview(a@);
    a.append(&mut b);
    assert(cview(a@) =~= av + bv);
}

/// The first `max_files` candidate paths of a snapshot, by priority.
pub fn gather_candidates(ctx: &ProjectContext, max_files: usize) -> (r: Vec<String>)
    ensures
        strings_view(r@) == candidates_spec(ctx@.files, max_files as nat),
{
    let ghost files = ctx@.files;
    let mut ps: Vec<Vec<char>> = Vec::new();
    let mut counts: Vec<(Vec<char>, usize)> = Vec::new();
    let mut i: usize = 0;
    while i < ctx.files.len()
        invariant
            i <= files.len(),
            files == ctx@.files,
            cview(ps@) == paths_of(files.take(i as int)),
            nview(counts@) == counts_of(files.take(i as int)),
        decreases files.len() - i,
    {
        let c = chars_of(ctx.files[i].0.as_str());
        let c2 = copy_chars(&c);
        let ghost p0 = cview(ps@);
        let ghost n0 = nview(counts@);
        ps.push(c);
        counts.push((c2, ctx.files[i].1.functions.len()));
        assert(paths_of(files.take(i + 1)) =~= paths_of(files.take(i as int)).push(files[i as int].0));
        assert(counts_of(files.take(i + 1)) =~= counts_of(files.take(i as int)).push(
            (files[i as int].0, files[i as int].1.functions.len()),
        ));
        assert(cview(ps@) =~= p0.push(files[i as int].0));
        assert(nview(counts@) =~= n0.push((files[i as int].0, files[i as int].1.functions.len())));
        i = i + 1;
    }
    assert(files.take(files.len() as int) == files);
    let ghost pv = paths_of(files);
    let mut order = first_readme_exec(&ps);
    append_all(&mut order, roots_exec(&ps));
    append_all(&mut order, lex_sort_exec(bin_paths_exec(&ps)));
    append_all(&mut order, lex_sort_exec(keyword_paths_exec(&ps)));
    append_all(&mut order, count_sort_exec(counts));
    let mut order = dedup_exec(order);
    assert(cview(order@) == candidate_order(files));
    if max_files < order.len() {
        order.truncate(max_files);
        assert(cview(order@) =~= candidate_order(files).take(max_files as int));
    }
    let mut r: Vec<String> = Vec::new();
    let mut j: usize = 0;
    while j < order.len()
        invariant
            j <= order@.len(),
            strings_view(r@) == cview(order@).take(j as int),
        decreases order@.len() - j,
    {
        let s = string_of(order[j].as_slice());
        let ghost r0 = strings_view(r@);
        r.push(s);
        assert(strings_view(r@) =~= r0.push(s@));
        assert(cview(order@).take(j + 1) =~= cview(order@).take(j as int).push(order@[j as int]@));
        j = j + 1;
    }
    assert(cview(order@).take(order@.len() as int) =~= cview(order@));
    r
}

/// The rationale given to a file by the heuristic ranking.
pub open spec fn reason_of(p: Seq<char>) -> Seq<char> {
    let l = lower_seq(p);
    if ends_with_spec(p, "src/main.rs"@) {
        "Binary entrypoint"@
    } else if ends_with_spec(p, "src/lib.rs"@) {
        "Library root"@
    } else if is_bin_path(p) {
        "Additional binary"@
    } else if contains_spec(l, "route"@) {
        "Routing hub"@
    } else if contains_spec(l, "handler"@) || contains_spec(l, "controller"@) {
        "Request handling"@
    } else if contains_spec(l, "server"@) {
        "Server setup"@
    } else if contains_spec(l, "cli"@) || contains_spec(l, "command"@) {
        "Command-line interface"@
    } else if is_readme(p) {
        "Project overview"@
    } else {
        "Likely important module"@
    }
}

fn reason_exec(p: &String) -> (r: String)
    ensures
        r@ == reason_of(p@),
{
    let cv = chars_of(p.as_str());
    let lc = lower_chars(p.as_str());
    let c = cv.as_slice();
    let l = lc.as_slice();
    let main = chars_of("src/main.rs");
    let lib = chars_of("src/lib.rs");
    let bin = chars_of("src/bin/");
    let route = chars_of("route");
    let handler = chars_of("handler");
    let controller = chars_of("controller");
    let server = chars_of("server");
    let cli = chars_of("cli");
    let command = chars_of("command");
    if ends_with(c, main.as_slice()) {
        String::from_str("Binary entrypoint")
    } else if ends_with(c, lib.as_slice()) {
        String::from_str("Library root")
    } else if crate::text::starts_with(c, bin.as_slice()) {
        String::from_str("Additional binary")
    } else if contains(l, route.as_slice()) {
        String::from_str("Routing hub")
    } else if contains(l, handler.as_slice()) || contains(l, controller.as_slice()) {
        String::from_str("Request handling")
    } else if contains(l, server.as_slice()) {
        String::from_str("Server setup")
    } else if contains(l, cli.as_slice()) || contains(l, command.as_slice()) {
        String::from_str("Command-line interface")
    } else if is_readme_exec(&cv) {
        String::from_str("Project overview")
    } else {
        String::from_str("Likely important module")
    }
}

/// The rank of the candidate at `i`: ten for the first, one less for each
/// next, never below one.
pub open spec fn fallback_rank(i: int) -> u8 {
    if 10 - i >= 1 {
        (10 - i) as u8
    } else {
        1
    }
}

/// The entry points of the heuristic ranking: the first seven of ten
/// candidates, ranked from ten down, each with the rationale its path gives.
pub open spec fn fallback_entries(files: Seq<(Seq<char>, FileView)>) -> Seq<EntryView> {
    let c = candidates_spec(files, 10);
    let k = if c.len() < 7 {
        c.len() as int
    } else {
        7
    };
    Seq::new(k as nat, |i: int| EntryView { path: c[i], rank: fallback_rank(i), reason: reason_of(c[i]) })
}

/// The heuristic ranks lie in 1..=10 and fall strictly from one entry point
/// to the next.
pub proof fn lemma_fallback_ranks(files: Seq<(Seq<char>, FileView)>)
    ensures
        forall|i: int|
            0 <= i < fallback_entries(files).len() ==> 1 <= #[trigger] fallback_entries(files)[i].rank
                <= 10,
        forall|i: int, j: int|
            0 <= i < j < fallback_entries(files).len() ==> #[trigger] fallback_entries(files)[i].rank
                > #[trigger] fallback_entries(files)[j].rank,
{
}

/// The brief set when no ranker wrote one.
pub open spec fn placeholder_brief() -> Seq<char> {
    "No project brief is available yet: no ranker was reached, so entry points were chosen by file layout."@
}

/// The snapshot after the heuristic ranking: where no entry point was set,
/// the first seven of ten candidates, ranked from ten down, and the
/// placeholder brief where there was none; otherwise unchanged.
pub open spec fn fallback_spec(ctx: ContextView) -> ContextView {
    if ctx.entry_points.len() == 0 {
        ContextView {
            entry_points: fallback_entries(ctx.files),
            project_brief: if ctx.project_brief is None {
                Some(placeholder_brief())
            } else {
                ctx.project_brief
            },
            ..ctx
        }
    } else {
        ctx
    }
}

/// Ranks entry points by file layout where no ranker set any.
pub fn apply_fallback(ctx: &mut ProjectContext)
    ensures
        final(ctx)@ == fallback_spec(old(ctx)@),
{
    if ctx.entry_points.len() > 0 {
        return;
    }
    let cands = gather_candidates(ctx, 10);
    let ghost c = strings_view(cands@);
    let k: usize = if cands.len() < 7 {
        cands.len()
    } else {
        7
    };
    let mut eps: Vec<EntryPoint> = Vec::new();
    let mut i: usize = 0;
    while i < k
        invariant
            i <= k <= cands@.len(),
            k == (if c.len() < 7 {
                c.len() as int
            } else {
                7
            }),
            c == strings_view(cands@),
            c == candidates_spec(ctx@.files, 10),
            entries_view(eps@) =~= fallback_entries(ctx@.files).take(i as int),
        decreases k - i,
    {
        let rank: u8 = (10 - i) as u8;
        let e = EntryPoint { path: cands[i].clone(), rank, reason: reason_exec(&cands[i]) };
        let ghost e0 = entries_view(eps@);
        eps.push(e);
        assert(entries_view(eps@) =~= e0.push(e@));
        assert(fallback_entries(ctx@.files).take(i + 1) =~= fallback_entries(ctx@.files).take(
            i as int,
        ).push(e@));
        i = i + 1;
    }
    assert(fallback_entries(ctx@.files).take(k as int) =~= fallback_entries(ctx@.files));
    ctx.entry_points = eps;
    if ctx.project_brief.is_none() {
        ctx.project_brief = Some(
            String::from_str(
                "No project brief is available yet: no ranker was reached, so entry points were chosen by file layout.",
            ),
        );
    }
}

/// The largest character boundary of `b` at or below `i`.
pub open spec fn cut_from(b: Seq<u8>, i: int) -> int
    decreases i,
{
    if i <= 0 {
        0
    } else if is_char_boundary(b, i) {
        i
    } else {
        cut_from(b, i - 1)
    }
}

/// Where a text of UTF-8 bytes `b` is cut to keep at most `max` bytes.
pub open spec fn utf8_cut(b: Seq<u8>, max: nat) -> int {
    cut_from(
        b,
        if max < b.len() {
            max as int
        } else {
            b.len() as int
        },
    )
}

/// The longest prefix of `s` that ends on a character boundary and holds at
/// most `max_bytes` bytes.
pub fn truncate_utf8(s: &str, max_bytes: usize) -> (r: String)
    ensures
        encode_utf8(r@) == encode_utf8(s@).take(utf8_cut(encode_utf8(s@), max_bytes as nat)),
{
    let ghost b = s.spec_bytes();
    let n = s.as_bytes().len();
    let mut i: usize = if max_bytes < n {
        max_bytes
    } else {
        n
    };
    proof {
        vstd::utf8::encode_utf8_valid_utf8(s@);
    }
    while i > 0 && !s.is_char_boundary(i)
        invariant
            i <= b.len(),
            b == encode_utf8(s@),
            vstd::utf8::valid_utf8(b),
            utf8_cut(b, max_bytes as nat) == cut_from(b, i as int),
        decreases i,
    {
        i = i - 1;
    }
    let (head, _tail) = s.split_at(i);
    let r = head.to_owned();
    assert(encode_utf8(r@) == head.spec_bytes());
    r
}

/// The instructions that open a ranking prompt.
pub open spec fn preamble_spec() -> Seq<char> {
    "You are helping a developer onboard to an unfamiliar repository. From the files below, pick the entry points worth reading first. Answer with a JSON object {\"entries\": [{\"path\": ..., \"rank\": 1-10, \"reason\": one sentence}], \"project_brief\": three to five sentences}. Use only paths shown below.\n"@
}

pub open spec fn block_spec(path: Seq<char>, snippet: Seq<char>) -> Seq<char> {
    "\n### "@ + path + "\n"@ + snippet + "\n"@
}

pub open spec fn blocks_spec(blocks: Seq<(Seq<char>, Seq<char>)>) -> Seq<char>
    decreases blocks.len(),
{
    if blocks.len() == 0 {
        Seq::empty()
    } else {
        blocks_spec(blocks.drop_last()) + block_spec(blocks.last().0, blocks.last().1)
    }
}

/// The preamble and the blocks, cut at `max_chars` characters.
pub open spec fn prompt_spec(blocks: Seq<(Seq<char>, Seq<char>)>, max_chars: nat) -> Seq<char> {
    let full = preamble_spec() + blocks_spec(blocks);
    if max_chars < full.len() {
        full.take(max_chars as int)
    } else {
        full
    }
}

/// The ranking prompt for `(path, snippet)` blocks within `max_chars` characters.
pub fn build_prompt(blocks: &Vec<(String, String)>, max_chars: usize) -> (r: String)
    ensures
        r@ == prompt_spec(blocks@.map_values(|p: (String, String)| (p.0@, p.1@)), max_chars as nat),
{
    let ghost bv = blocks@.map_values(|p: (String, String)| (p.0@, p.1@));
    let mut full = String::from_str(
        "You are helping a developer onboard to an unfamiliar repository. From the files below, pick the entry points worth reading first. Answer with a JSON object {\"entries\": [{\"path\": ..., \"rank\": 1-10, \"reason\": one sentence}], \"project_brief\": three to five sentences}. Use only paths shown below.\n",
    );
    let mut i: usize = 0;
    while i < blocks.len()
        invariant
            i <= blocks@.len(),
            bv == blocks@.map_values(|p: (String, String)| (p.0@, p.1@)),
            full@ == preamble_spec() + blocks_spec(bv.take(i as int)),
        decreases blocks@.len() - i,
    {
        full.append("\n### ");
        full.append(blocks[i].0.as_str());
        full.append("\n");
        full.append(blocks[i].1.as_str());
        full.append("\n");
        assert(bv.take(i + 1).drop_last() =~= bv.take(i as int));
        assert(bv.take(i + 1).last() == bv[i as int]);
        i = i + 1;
    }
    assert(bv.take(bv.len() as int) =~= bv);
    let cs = chars_of(full.as_str());
    if max_chars < cs.len() {
        let cut = copy_range(cs.as_slice(), 0, max_chars);
        string_of(cut.as_slice())
    } else {
        full
    }
}

/// A ranker's entries are taken only if every rank lies in 1..=10 and every
/// path is a file of the snapshot.
pub open spec fn reply_valid(files: Seq<(Seq<char>, FileView)>, entries: Seq<EntryView>) -> bool {
    forall|i: int|
        0 <= i < entries.len() ==> 1 <= #[trigger] entries[i].rank <= 10 && has_key(
            files,
            entries[i].path,
        )
}

/// Takes a ranker's reply: where it is valid its entries and brief replace
/// those of the snapshot; otherwise the snapshot is left as it was.
pub fn apply_reply(ctx: &mut ProjectContext, entries: Vec<EntryPoint>, brief: String) -> (accepted: bool)
    ensures
        accepted == reply_valid(old(ctx)@.files, entries_view(entries@)),
        accepted ==> final(ctx)@ == (ContextView {
            entry_points: entries_view(entries@),
            project_brief: Some(brief@),
            ..old(ctx)@
        }),
        !accepted ==> final(ctx)@ == old(ctx)@,
{
    let ghost ev = entries_view(entries@);
    let mut i: usize = 0;
    while i < entries.len()
        invariant
            i <= entries@.len(),
            ev == entries_view(entries@),
            forall|j: int| 0 <= j < i ==> 1 <= #[trigger] ev[j].rank <= 10 && has_key(
                ctx@.files,
                ev[j].path,
            ),
        decreases entries@.len() - i,
    {
        let e = &entries[i];
        assert(ev[i as int] == entries@[i as int]@);
        if e.rank < 1 || e.rank > 10 {
            assert(!(1 <= ev[i as int].rank <= 10));
            return false;
        }
        match find_key(&ctx.files, &e.path) {
            Some(k) => {
                assert(ctx@.files[k as int].0 == ev[i as int].path);
            },
            None => {
                assert(!has_key(ctx@.files, ev[i as int].path)) by {
                    assert forall|k: int| 0 <= k < ctx@.files.len() implies #[trigger] ctx@.files[k].0
                        != ev[i as int].path by {
                        assert(ctx@.files[k].0 == ctx.files@[k].0@);
                    }
                }
                return false;
            },
        }
        i = i + 1;
    }
    ctx.entry_points = entries;
    ctx.project_brief = Some(brief);
    true
}

} // verus!

//! Merges a previous snapshot with a fresh one: summaries of unchanged
//! functions are carried forward, those of changed functions are cleared.
use vstd::prelude::*;
use crate::snapshot::{WalkView, build_spec, lemma_build_fresh, no_skipped_paths};
use crate::paths::path_skipped;
use crate::model::{
    ContextView, EntryPoint, FileEntry, FileView, FunctionRecord, FunctionView, ProjectContext,
    entries_view, find_key, fns_view, has_key, keys_unique, lemma_value_at, opt_view, pairs_view,
    value_at,
};

verus! {

/// The last function of `fs` named `n`: the merge key collapses duplicates to it.
pub open spec fn last_named(fs: Seq<FunctionView>, n: Seq<char>) -> Option<FunctionView>
    decreases fs.len(),
{
    if fs.len() == 0 {
        None
    } else if fs.last().name == n {
        Some(fs.last())
    } else {
        last_named(fs.drop_last(), n)
    }
}

/// A fresh function record merged with the previous records of its file.
pub open spec fn merge_function(old_fns: Seq<FunctionView>, f: FunctionView) -> FunctionView {
    match last_named(old_fns, f.name) {
        None => f,
        Some(o) => if o.body_hash == f.body_hash {
            FunctionView { summary: o.summary, ..f }
        } else {
            FunctionView { summary: None, ..f }
        },
    }
}

pub open spec fn merge_file_spec(old: FileView, new: FileView) -> FileView {
    FileView {
        language: new.language,
        functions: new.functions.map_values(|f: FunctionView| merge_function(old.functions, f)),
    }
}

pub open spec fn merge_entry(old_files: Seq<(Seq<char>, FileView)>, p: (Seq<char>, FileView)) -> (
    Seq<char>,
    FileView,
) {
    if has_key(old_files, p.0) {
        (p.0, merge_file_spec(value_at(old_files, p.0), p.1))
    } else {
        p
    }
}

/// Folders and files come from the fresh snapshot, files present before
/// merged with their previous entry; entry points and brief are kept.
pub open spec fn merge_project_spec(old: ContextView, new: ContextView) -> ContextView {
    ContextView {
        folders: new.folders,
        files: new.files.map_values(|p: (Seq<char>, FileView)| merge_entry(old.files, p)),
        entry_points: old.entry_points,
        project_brief: old.project_brief,
    }
}

/// The position of the last function named `name`.
pub fn find_last_named(fs: &Vec<FunctionRecord>, name: &String) -> (r: Option<usize>)
    ensures
        match r {
            Some(i) => i < fs@.len() && last_named(fns_view(fs@), name@) == Some(
                fns_view(fs@)[i as int],
            ),
            None => last_named(fns_view(fs@), name@) is None,
        },
{
    let ghost v = fns_view(fs@);
    let mut i = fs.len();
    assert(v.take(i as int) == v);
    while i > 0
        invariant
            i <= fs@.len(),
            v == fns_view(fs@),
            last_named(v, name@) == last_named(v.take(i as int), name@),
        decreases i,
    {
        assert(v.take(i as int).last() == v[i - 1]);
        if fs[i - 1].name == *name {
            return Some(i - 1);
        }
        assert(v.take(i as int).drop_last() == v.take(i - 1));
        i = i - 1;
    }
    None
}

fn copy_opt(o: &Option<String>) -> (r: Option<String>)
    ensures
        opt_view(r) == opt_view(*o),
{
    match o {
        Some(s) => Some(s.clone()),
        None => None,
    }
}

/// Merges a file's fresh entry with its previous one: each fresh function
/// keeps the summary of the previous function of its name where the hashes
/// agree and has none where they differ; functions only in `old` are dropped.
pub fn merge_file(old: &FileEntry, new: FileEntry) -> (r: FileEntry)
    ensures
        r@ == merge_file_spec(old@, new@),
{
    let ghost nv = new@;
    let FileEntry { language, functions } = new;
    let ghost src = functions@;
    let mut out: Vec<FunctionRecord> = Vec::new();
    for f in it: functions
        invariant
            it.seq() == src,
            nv.functions == fns_view(src),
            fns_view(out@) == fns_view(src.take(it.index() as int)).map_values(
                |g: FunctionView| merge_function(old@.functions, g),
            ),
    {
        let ghost k = it.index() as int;
        let ghost before = fns_view(out@);
        let summary = match find_last_named(&old.functions, &f.name) {
            Some(i) => {
                if old.functions[i].body_hash == f.body_hash {
                    copy_opt(&old.functions[i].summary)
                } else {
                    None
                }
            },
            None => f.summary,
        };
        let rec = FunctionRecord { name: f.name, line: f.line, body_hash: f.body_hash, summary };
        assert(rec@ == merge_function(old@.functions, src[k]@));
        out.push(rec);
        assert(fns_view(src.take(k + 1)) == fns_view(src.take(k)).push(src[k]@));
        assert(fns_view(out@) == before.push(rec@));
    }
    assert(src.take(src.len() as int) == src);
    let r = FileEntry { language, functions: out };
    assert(r@.functions == merge_file_spec(old@, nv).functions);
    r
}

/// A copy of a list of entry points.
pub fn copy_entry_points(v: &Vec<EntryPoint>) -> (r: Vec<EntryPoint>)
    ensures
        entries_view(r@) == entries_view(v@),
{
    let mut r: Vec<EntryPoint> = Vec::new();
    let mut i: usize = 0;
    while i < v.len()
        invariant
            i <= v@.len(),
            entries_view(r@) == entries_view(v@.take(i as int)),
        decreases v@.len() - i,
    {
        let e = EntryPoint { path: v[i].path.clone(), rank: v[i].rank, reason: v[i].reason.clone() };
        r.push(e);
        assert(entries_view(v@.take(i + 1)) == entries_view(v@.take(i as int)).push(v@[i as int]@));
        assert(entries_view(r@) == entries_view(v@.take(i as int)).push(e@));
        i = i + 1;
    }
    assert(v@.take(v@.len() as int) == v@);
    r
}

/// Merges a previous snapshot with a fresh one.
pub fn merge_project(old: &ProjectContext, new: ProjectContext) -> (r: ProjectContext)
    requires
        old@.wf(),
        new@.wf(),
    ensures
        r@ == merge_project_spec(old@, new@),
        r@.wf(),
{
    let ghost nv = new@;
    let ProjectContext { folders, files, entry_points: _, project_brief: _ } = new;
    let ghost src = files@;
    let mut out: Vec<(String, FileEntry)> = Vec::new();
    for p in it: files
        invariant
            it.seq() == src,
            nv.files == pairs_view(src),
            old@.wf(),
            pairs_view(out@) == pairs_view(src.take(it.index() as int)).map_values(
                |q: (Seq<char>, FileView)| merge_entry(old@.files, q),
            ),
    {
        let ghost k = it.index() as int;
        let ghost before = pairs_view(out@);
        let (path, entry) = p;
        let merged = match find_key(&old.files, &path) {
            Some(i) => {
                proof {
                    lemma_value_at(old@.files, i as int);
                }
                merge_file(&old.files[i].1, entry)
            },
            None => {
                assert(!has_key(old@.files, path@));
                entry
            },
        };
        let ghost q = (path@, merged@);
        assert(q == merge_entry(old@.files, pairs_view(src)[k]));
        out.push((path, merged));
        assert(pairs_view(src.take(k + 1)) == pairs_view(src.take(k)).push(pairs_view(src)[k]));
        assert(pairs_view(out@) == before.push(q));
    }
    assert(src.take(src.len() as int) == src);
    let r = ProjectContext {
        folders,
        files: out,
        entry_points: copy_entry_points(&old.entry_points),
        project_brief: copy_opt(&old.project_brief),
    };
    assert(r@.files == merge_project_spec(old@, nv).files);
    assert(keys_unique(r@.files)) by {
        assert forall|i: int, j: int|
            0 <= i < r@.files.len() && 0 <= j < r@.files.len() && #[trigger] r@.files[i].0
                == #[trigger] r@.files[j].0 implies i == j by {
            assert(r@.files[i].0 == nv.files[i].0);
            assert(r@.files[j].0 == nv.files[j].0);
        }
    }
    r
}

/// The previous record that the merge pairs with function `j` of fresh file `i`.
pub open spec fn previous_of(old: ContextView, new: ContextView, i: int, j: int) -> Option<
    FunctionView,
> {
    if has_key(old.files, new.files[i].0) {
        last_named(value_at(old.files, new.files[i].0).functions, new.files[i].1.functions[j].name)
    } else {
        None
    }
}

/// A function whose hash is unchanged keeps its previous summary.
pub proof fn lemma_carry_forward(old: ContextView, new: ContextView, i: int, j: int)
    requires
        old.wf(),
        new.wf(),
        0 <= i < new.files.len(),
        0 <= j < new.files[i].1.functions.len(),
        previous_of(old, new, i, j) is Some,
        previous_of(old, new, i, j)->0.body_hash == new.files[i].1.functions[j].body_hash,
    ensures
        merge_project_spec(old, new).files[i].1.functions[j].summary == previous_of(
            old,
            new,
            i,
            j,
        )->0.summary,
{
}

/// A function whose hash changed loses its summary.
pub proof fn lemma_invalidation(old: ContextView, new: ContextView, i: int, j: int)
    requires
        old.wf(),
        new.wf(),
        0 <= i < new.files.len(),
        0 <= j < new.files[i].1.functions.len(),
        previous_of(old, new, i, j) is Some,
        previous_of(old, new, i, j)->0.body_hash != new.files[i].1.functions[j].body_hash,
    ensures
        merge_project_spec(old, new).files[i].1.functions[j].summary is None,
{
}

/// A name that the fresh entry of a file no longer has appears in no merged
/// record of that file, and a path that the fresh snapshot no longer has is
/// not among the merged files.
pub proof fn lemma_deletion(old: ContextView, new: ContextView, path: Seq<char>, name: Seq<char>)
    requires
        old.wf(),
        new.wf(),
    ensures
        !has_key(new.files, path) ==> !has_key(merge_project_spec(old, new).files, path),
        forall|i: int, j: int|
            0 <= i < new.files.len() && new.files[i].0 == path && (forall|k: int|
                0 <= k < new.files[i].1.functions.len() ==> #[trigger] new.files[i].1.functions[k].name
                    != name) && 0 <= j < merge_project_spec(old, new).files[i].1.functions.len()
                ==> #[trigger] merge_project_spec(old, new).files[i].1.functions[j].name != name,
{
    let m = merge_project_spec(old, new);
    if has_key(m.files, path) {
        let i = choose|i: int| 0 <= i < m.files.len() && #[trigger] m.files[i].0 == path;
        assert(new.files[i].0 == path);
    }
}

/// The merged snapshot has exactly the fresh snapshot's folder and file
/// paths, so no skipped path enters it.
pub proof fn lemma_merge_keeps_paths(old: ContextView, new: ContextView)
    requires
        no_skipped_paths(new),
    ensures
        no_skipped_paths(merge_project_spec(old, new)),
        merge_project_spec(old, new).files.len() == new.files.len(),
        forall|i: int|
            0 <= i < new.files.len() ==> #[trigger] merge_project_spec(old, new).files[i].0
                == new.files[i].0,
{
    let m = merge_project_spec(old, new);
    assert forall|i: int| 0 <= i < m.files.len() implies !path_skipped(#[trigger] m.files[i].0) by {
        assert(m.files[i].0 == new.files[i].0);
    }
}

/// Records agree with the last record of their name in hash and summary
/// (always so where names are unique in each file).
pub open spec fn duplicates_agree(ctx: ContextView) -> bool {
    forall|i: int, j: int|
        0 <= i < ctx.files.len() && 0 <= j < ctx.files[i].1.functions.len() ==> {
            let f = #[trigger] ctx.files[i].1.functions[j];
            let o = last_named(ctx.files[i].1.functions, f.name)->0;
            (o.body_hash == f.body_hash && o.summary == f.summary) || (o.body_hash != f.body_hash
                && f.summary is None)
        }
}

pub open spec fn strip_summary(f: FunctionView) -> FunctionView {
    FunctionView { summary: None, ..f }
}

/// The snapshot that a walk of an unchanged tree builds for `ctx`: the same
/// folders, files and functions, with no summaries, entry points or brief.
pub open spec fn fresh_of(ctx: ContextView) -> ContextView {
    ContextView {
        folders: ctx.folders,
        files: ctx.files.map_values(
            |p: (Seq<char>, FileView)|
                (
                    p.0,
                    FileView {
                        language: p.1.language,
                        functions: p.1.functions.map_values(|f: FunctionView| strip_summary(f)),
                    },
                ),
        ),
        entry_points: Seq::empty(),
        project_brief: None,
    }
}

pub proof fn lemma_last_named_some(fs: Seq<FunctionView>, j: int)
    requires
        0 <= j < fs.len(),
    ensures
        last_named(fs, fs[j].name) is Some,
    decreases fs.len(),
{
    if fs.last().name != fs[j].name {
        lemma_last_named_some(fs.drop_last(), j);
    }
}

/// Merging a snapshot with the fresh snapshot of the same tree gives the
/// snapshot back.
pub proof fn lemma_merge_idempotent(ctx: ContextView)
    requires
        ctx.wf(),
        duplicates_agree(ctx),
    ensures
        merge_project_spec(ctx, fresh_of(ctx)) == ctx,
{
    let fresh = fresh_of(ctx);
    let m = merge_project_spec(ctx, fresh);
    assert forall|i: int| 0 <= i < ctx.files.len() implies #[trigger] m.files[i] == ctx.files[i] by {
        lemma_value_at(ctx.files, i);
        let fv = ctx.files[i].1;
        let mf = m.files[i].1;
        assert forall|j: int| 0 <= j < fv.functions.len() implies #[trigger] mf.functions[j]
            == fv.functions[j] by {
            lemma_last_named_some(fv.functions, j);
            assert(ctx.files[i].1.functions[j] == fv.functions[j]);
        }
        assert(mf.functions =~= fv.functions);
    }
    assert(m.files =~= ctx.files);
}

/// Repeating an update on an unchanged tree changes nothing: the snapshot
/// that merging with the walk's snapshot gave, merged with the snapshot of
/// the same walk again, comes back as it was.
pub proof fn lemma_update_idempotent(prev: ContextView, items: Seq<WalkView>)
    requires
        duplicates_agree(merge_project_spec(prev, build_spec(items))),
    ensures
        merge_project_spec(merge_project_spec(prev, build_spec(items)), build_spec(items))
            == merge_project_spec(prev, build_spec(items)),
{
    let b = build_spec(items);
    lemma_build_fresh(items);
    let ctx = merge_project_spec(prev, b);
    let f = fresh_of(ctx);
    assert forall|i: int| 0 <= i < b.files.len() implies #[trigger] f.files[i] == b.files[i] by {
        let bf = b.files[i].1;
        assert forall|j: int| 0 <= j < bf.functions.len() implies #[trigger] f.files[i].1.functions[j]
            == bf.functions[j] by {
            assert(b.files[i].1.functions[j].summary is None);
        }
        assert(f.files[i].1.functions =~= bf.functions);
    }
    assert(f.files =~= b.files);
    assert(f.entry_points =~= b.entry_points);
    assert(f == b);
    assert(keys_unique(ctx.files)) by {
        assert forall|i: int, j: int|
            0 <= i < ctx.files.len() && 0 <= j < ctx.files.len() && #[trigger] ctx.files[i].0
                == #[trigger] ctx.files[j].0 implies i == j by {
            assert(ctx.files[i].0 == b.files[i].0);
            assert(ctx.files[j].0 == b.files[j].0);
        }
    }
    lemma_merge_idempotent(ctx);
}

} // verus!

//! Builds a fresh snapshot from what a walk of the repository found.
use vstd::prelude::*;
use crate::model::{ContextView, FileView, FileEntry, FolderEntry, ProjectContext, has_key, key_index, keys_unique, put, put_entry, opt_view, strings_view};
use crate::paths::{path_skipped, path_language, is_skipped_path, language_of_path};
use crate::extract::{extract, extract_spec, is_rust_label, lemma_records_unsummarized, records_from};

verus! {

/// What the walk found at a path.
pub enum WalkKind {
    /// A directory, with the names of its immediate children.
    Folder(Vec<String>),
    /// A regular file, with its text where it could be read.
    File(Option<String>),
}

/// One entry of the walk, keyed by its repository-relative path.
pub struct WalkItem {
    pub path: String,
    pub kind: WalkKind,
}

pub enum WalkKindView {
    Folder(Seq<Seq<char>>),
    File(Option<Seq<char>>),
}

pub struct WalkView {
    pub path: Seq<char>,
    pub kind: WalkKindView,
}

impl View for WalkItem {
    type V = WalkView;

    open spec fn view(&self) -> WalkView {
        WalkView {
            path: self.path@,
            kind: match self.kind {
                WalkKind::Folder(c) => WalkKindView::Folder(strings_view(c@)),
                WalkKind::File(t) => WalkKindView::File(opt_view(t)),
            },
        }
    }
}

pub open spec fn walk_view(items: Seq<WalkItem>) -> Seq<WalkView> {
    items.map_values(|w: WalkItem| w@)
}

pub open spec fn empty_context() -> ContextView {
    ContextView {
        folders: Seq::empty(),
        files: Seq::empty(),
        entry_points: Seq::empty(),
        project_brief: None,
    }
}

/// The snapshot after taking one more walk entry into account: skipped
/// paths, unreadable files and files of no supported language change nothing.
pub open spec fn add_item(ctx: ContextView, w: WalkView) -> ContextView {
    if path_skipped(w.path) {
        ctx
    } else {
        match w.kind {
            WalkKindView::Folder(children) => ContextView {
                folders: put(ctx.folders, w.path, children),
                ..ctx
            },
            WalkKindView::File(Some(text)) => match path_language(w.path) {
                Some(lang) => ContextView {
                    files: put(
                        ctx.files,
                        w.path,
                        FileView { language: lang, functions: extract_spec(text, lang) },
                    ),
                    ..ctx
                },
                None => ctx,
            },
            WalkKindView::File(None) => ctx,
        }
    }
}

/// The snapshot of a whole walk, entries taken in order.
pub open spec fn build_spec(items: Seq<WalkView>) -> ContextView
    decreases items.len(),
{
    if items.len() == 0 {
        empty_context()
    } else {
        add_item(build_spec(items.drop_last()), items.last())
    }
}

/// No folder or file of the snapshot lies on a skipped path.
pub open spec fn no_skipped_paths(ctx: ContextView) -> bool {
    &&& forall|i: int| 0 <= i < ctx.folders.len() ==> !path_skipped(#[trigger] ctx.folders[i].0)
    &&& forall|i: int| 0 <= i < ctx.files.len() ==> !path_skipped(#[trigger] ctx.files[i].0)
}

proof fn lemma_put_keys<V>(s: Seq<(Seq<char>, V)>, k: Seq<char>, v: V)
    requires
        forall|i: int| 0 <= i < s.len() ==> !path_skipped(#[trigger] s[i].0),
        !path_skipped(k),
    ensures
        forall|i: int|
            0 <= i < put(s, k, v).len() ==> !path_skipped(#[trigger] put(s, k, v)[i].0),
{
}

/// The entries of a walk whose paths are not skipped, in order.
pub open spec fn kept_items(items: Seq<WalkView>) -> Seq<WalkView>
    decreases items.len(),
{
    if items.len() == 0 {
        Seq::empty()
    } else if path_skipped(items.last().path) {
        kept_items(items.drop_last())
    } else {
        kept_items(items.drop_last()).push(items.last())
    }
}

proof fn lemma_build_kept(items: Seq<WalkView>)
    ensures
        build_spec(items) == build_spec(kept_items(items)),
    decreases items.len(),
{
    if items.len() > 0 {
        lemma_build_kept(items.drop_last());
        if !path_skipped(items.last().path) {
            let k = kept_items(items);
            assert(k.drop_last() =~= kept_items(items.drop_last()));
        }
    }
}

/// Entries under excluded or hidden paths make no difference: two walks
/// that agree on every other entry build the same snapshot.
pub proof fn lemma_skipped_entries_ignored(a: Seq<WalkView>, b: Seq<WalkView>)
    requires
        kept_items(a) == kept_items(b),
    ensures
        build_spec(a) == build_spec(b),
{
    lemma_build_kept(a);
    lemma_build_kept(b);
}

/// A fresh snapshot: no summary on any function, no entry points, no brief.
pub open spec fn unannotated(ctx: ContextView) -> bool {
    &&& ctx.entry_points.len() == 0
    &&& ctx.project_brief is None
    &&& forall|i: int, j: int|
        0 <= i < ctx.files.len() && 0 <= j < ctx.files[i].1.functions.len() ==> (
        #[trigger] ctx.files[i].1.functions[j]).summary is None
}

proof fn lemma_put_unique<V>(s: Seq<(Seq<char>, V)>, k: Seq<char>, v: V)
    requires
        keys_unique(s),
    ensures
        keys_unique(put(s, k, v)),
        forall|i: int|
            0 <= i < put(s, k, v).len() ==> #[trigger] put(s, k, v)[i] == s[i] || put(s, k, v)[i]
                == (k, v),
{
    if has_key(s, k) {
        let m = key_index(s, k);
        assert(s[m].0 == k);
    }
}

/// What a walk builds is well formed and carries no annotation.
pub proof fn lemma_build_fresh(items: Seq<WalkView>)
    ensures
        build_spec(items).wf(),
        unannotated(build_spec(items)),
    decreases items.len(),
{
    if items.len() > 0 {
        let prev = build_spec(items.drop_last());
        lemma_build_fresh(items.drop_last());
        lemma_put_unique(prev.folders, items.last().path, Seq::empty());
        let w = items.last();
        if !path_skipped(w.path) {
            match w.kind {
                WalkKindView::Folder(children) => {
                    lemma_put_unique(prev.folders, w.path, children);
                },
                WalkKindView::File(Some(text)) => match path_language(w.path) {
                    Some(lang) => {
                        let fv = FileView { language: lang, functions: extract_spec(text, lang) };
                        lemma_put_unique(prev.files, w.path, fv);
                        if is_rust_label(lang) {
                            lemma_records_unsummarized(text, 0, 0);
                        }
                        let c = build_spec(items);
                        assert forall|i: int, j: int|
                            0 <= i < c.files.len() && 0 <= j < c.files[i].1.functions.len() implies (
                            #[trigger] c.files[i].1.functions[j]).summary is None by {
                            if i < prev.files.len() && c.files[i] == prev.files[i] {
                                assert(prev.files[i].1.functions[j].summary is None);
                            } else {
                                assert(c.files[i] == (w.path, fv));
                                assert(fv.functions[j] == records_from(text, 0, 0)[j]);
                            }
                        }
                    },
                    None => {},
                },
                WalkKindView::File(None) => {},
            }
        }
    }
}

/// The snapshot of the walk: a folder entry per directory, a file entry
/// with its extracted functions per readable file of a supported language,
/// later entries for a path replacing earlier ones; no entry points and no
/// brief.
pub fn build_snapshot(items: Vec<WalkItem>) -> (r: ProjectContext)
    ensures
        r@ == build_spec(walk_view(items@)),
        r@.wf(),
        no_skipped_paths(r@),
{
    let ghost orig = items@;
    let mut ctx = ProjectContext {
        folders: Vec::new(),
        files: Vec::new(),
        entry_points: Vec::new(),
        project_brief: None,
    };
    assert(walk_view(orig.take(0)) =~= Seq::<WalkView>::empty());
    assert(ctx@.folders =~= empty_context().folders);
    assert(ctx@.files =~= empty_context().files);
    assert(ctx@.entry_points =~= empty_context().entry_points);
    for item in it: items
        invariant
            it.seq() == orig,
            ctx@ == build_spec(walk_view(orig.take(it.index() as int))),
            ctx@.wf(),
            no_skipped_paths(ctx@),
    {
        let ghost before = ctx@;
        let ghost w = item@;
        let ghost i = it.index() as int;
        assert(walk_view(orig.take(i + 1)).drop_last() =~= walk_view(orig.take(i)));
        assert(walk_view(orig.take(i + 1)).last() == w);
        let WalkItem { path, kind } = item;
        if !is_skipped_path(path.as_str()) {
            match kind {
                WalkKind::Folder(children) => {
                    proof {
                        lemma_put_keys(before.folders, path@, strings_view(children@));
                    }
                    put_entry(&mut ctx.folders, path, FolderEntry { children });
                },
                WalkKind::File(Some(text)) => {
                    match language_of_path(path.as_str()) {
                        Some(lang) => {
                            let functions = extract(text.as_str(), lang.as_str());
                            let entry = FileEntry { language: lang, functions };
                            proof {
                                lemma_put_keys(before.files, path@, entry@);
                            }
                            put_entry(&mut ctx.files, path, entry);
                        },
                        None => {},
                    }
                },
                WalkKind::File(None) => {},
            }
        }
        assert(ctx@ =~= add_item(before, w));
    }
    assert(orig.take(orig.len() as int) == orig);
    ctx
}

} // verus!

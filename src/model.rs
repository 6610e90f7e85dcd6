//! The index's data: function records, file and folder entries, entry
//! points and the project context, each with a mathematical view.
use vstd::prelude::*;

verus! {

pub open spec fn opt_view(o: Option<String>) -> Option<Seq<char>> {
    match o {
        Some(s) => Some(s@),
        None => None,
    }
}

/// A top-level function found in a source file.
#[derive(Clone, Debug)]
pub struct FunctionRecord {
    pub name: String,
    /// 1-based line of the function header.
    pub line: usize,
    /// Lowercase hex SHA-256 of the function's source text.
    pub body_hash: String,
    /// Free-form summary; `None` means the function needs summarizing.
    pub summary: Option<String>,
}

pub struct FunctionView {
    pub name: Seq<char>,
    pub line: nat,
    pub body_hash: Seq<char>,
    pub summary: Option<Seq<char>>,
}

impl View for FunctionRecord {
    type V = FunctionView;

    open spec fn view(&self) -> FunctionView {
        FunctionView {
            name: self.name@,
            line: self.line as nat,
            body_hash: self.body_hash@,
            summary: opt_view(self.summary),
        }
    }
}

pub open spec fn fns_view(v: Seq<FunctionRecord>) -> Seq<FunctionView> {
    v.map_values(|f: FunctionRecord| f@)
}

/// A classified source file and the functions found in it.
#[derive(Clone, Debug)]
pub struct FileEntry {
    pub language: String,
    pub functions: Vec<FunctionRecord>,
}

pub struct FileView {
    pub language: Seq<char>,
    pub functions: Seq<FunctionView>,
}

impl View for FileEntry {
    type V = FileView;

    open spec fn view(&self) -> FileView {
        FileView { language: self.language@, functions: fns_view(self.functions@) }
    }
}

/// A directory and the names of its immediate children.
#[derive(Clone, Debug)]
pub struct FolderEntry {
    pub children: Vec<String>,
}

pub open spec fn strings_view(v: Seq<String>) -> Seq<Seq<char>> {
    v.map_values(|s: String| s@)
}

impl View for FolderEntry {
    type V = Seq<Seq<char>>;

    open spec fn view(&self) -> Seq<Seq<char>> {
        strings_view(self.children@)
    }
}

/// A file judged important for onboarding.
#[derive(Clone, Debug)]
pub struct EntryPoint {
    pub path: String,
    /// 1 to 10, higher is more important.
    pub rank: u8,
    pub reason: String,
}

pub struct EntryView {
    pub path: Seq<char>,
    pub rank: u8,
    pub reason: Seq<char>,
}

impl View for EntryPoint {
    type V = EntryView;

    open spec fn view(&self) -> EntryView {
        EntryView { path: self.path@, rank: self.rank, reason: self.reason@ }
    }
}

pub open spec fn entries_view(v: Seq<EntryPoint>) -> Seq<EntryView> {
    v.map_values(|e: EntryPoint| e@)
}

/// A snapshot of the repository: folders and files keyed by their
/// repository-relative path, the ranked entry points and the brief.
#[derive(Clone, Debug)]
pub struct ProjectContext {
    pub folders: Vec<(String, FolderEntry)>,
    pub files: Vec<(String, FileEntry)>,
    pub entry_points: Vec<EntryPoint>,
    pub project_brief: Option<String>,
}

pub struct ContextView {
    pub folders: Seq<(Seq<char>, Seq<Seq<char>>)>,
    pub files: Seq<(Seq<char>, FileView)>,
    pub entry_points: Seq<EntryView>,
    pub project_brief: Option<Seq<char>>,
}

impl View for ProjectContext {
    type V = ContextView;

    open spec fn view(&self) -> ContextView {
        ContextView {
            folders: pairs_view(self.folders@),
            files: pairs_view(self.files@),
            entry_points: entries_view(self.entry_points@),
            project_brief: opt_view(self.project_brief),
        }
    }
}

/// A keyed sequence seen through the views of its keys and values.
pub open spec fn pairs_view<T: View>(s: Seq<(String, T)>) -> Seq<(Seq<char>, T::V)> {
    s.map_values(|p: (String, T)| (p.0@, p.1@))
}

/// No key occurs twice.
pub open spec fn keys_unique<V>(s: Seq<(Seq<char>, V)>) -> bool {
    forall|i: int, j: int|
        0 <= i < s.len() && 0 <= j < s.len() && #[trigger] s[i].0 == #[trigger] s[j].0 ==> i == j
}

pub open spec fn has_key<V>(s: Seq<(Seq<char>, V)>, k: Seq<char>) -> bool {
    exists|i: int| 0 <= i < s.len() && #[trigger] s[i].0 == k
}

/// The value stored under `k`; meaningful where `has_key(s, k)`.
pub open spec fn value_at<V>(s: Seq<(Seq<char>, V)>, k: Seq<char>) -> V {
    let i = choose|i: int| 0 <= i < s.len() && #[trigger] s[i].0 == k;
    s[i].1
}

pub proof fn lemma_value_at<V>(s: Seq<(Seq<char>, V)>, i: int)
    requires
        keys_unique(s),
        0 <= i < s.len(),
    ensures
        has_key(s, s[i].0),
        value_at(s, s[i].0) == s[i].1,
{
    assert(s[i].0 == s[i].0);
}

/// The index of `k`; meaningful where `has_key(s, k)`.
pub open spec fn key_index<V>(s: Seq<(Seq<char>, V)>, k: Seq<char>) -> int {
    choose|i: int| 0 <= i < s.len() && #[trigger] s[i].0 == k
}

/// `s` with `v` stored under `k`: in place where `k` is present, else at the end.
pub open spec fn put<V>(s: Seq<(Seq<char>, V)>, k: Seq<char>, v: V) -> Seq<(Seq<char>, V)> {
    if has_key(s, k) {
        s.update(key_index(s, k), (k, v))
    } else {
        s.push((k, v))
    }
}

/// Stores `v` under `k`, replacing the value already there.
pub fn put_entry<T: View>(s: &mut Vec<(String, T)>, k: String, v: T)
    requires
        keys_unique(pairs_view(old(s)@)),
    ensures
        pairs_view(final(s)@) == put(pairs_view(old(s)@), k@, v@),
        keys_unique(pairs_view(final(s)@)),
{
    let ghost kv = k@;
    let ghost vv = v@;
    let ghost before = pairs_view(s@);
    match find_key(s, &k) {
        Some(i) => {
            assert(before[i as int].0 == kv);
            assert(has_key(before, kv));
            assert(key_index(before, kv) == i);
            s.set(i, (k, v));
            assert(pairs_view(s@) == before.update(i as int, (kv, vv)));
        },
        None => {
            assert(!has_key(before, kv));
            s.push((k, v));
            assert(pairs_view(s@) == before.push((kv, vv)));
        },
    }
}

impl ContextView {
    pub open spec fn wf(self) -> bool {
        keys_unique(self.folders) && keys_unique(self.files)
    }
}

/// The position of `k` among the keys of `s`.
pub fn find_key<T: View>(s: &Vec<(String, T)>, k: &String) -> (r: Option<usize>)
    ensures
        match r {
            Some(i) => i < s@.len() && s@[i as int].0@ == k@,
            None => forall|i: int| 0 <= i < s@.len() ==> s@[i].0@ != k@,
        },
{
    let mut i: usize = 0;
    while i < s.len()
        invariant
            i <= s@.len(),
            forall|j: int| 0 <= j < i ==> s@[j].0@ != k@,
        decreases s@.len() - i,
    {
        if s[i].0 == *k {
            return Some(i);
        }
        i = i + 1;
    }
    None
}

} // verus!

//! Function-level counts of an update and the share of reused summaries.
use vstd::prelude::*;
use crate::model::{ContextView, FileView, FunctionView, ProjectContext, find_key, has_key, lemma_value_at, value_at, fns_view, pairs_view};
use crate::merge::{last_named, find_last_named};

verus! {

/// How a merged function relates to the previous snapshot.
#[derive(PartialEq, Eq, Structural)]
pub enum Change {
    Added,
    Modified,
    Unchanged,
}

/// A function of the merged file at `path` is added where the previous
/// snapshot has no such file or no function of its name there, unchanged
/// where the last previous function of its name has its hash, else modified.
pub open spec fn change_of(prev: ContextView, path: Seq<char>, f: FunctionView) -> Change {
    if !has_key(prev.files, path) {
        Change::Added
    } else {
        match last_named(value_at(prev.files, path).functions, f.name) {
            None => Change::Added,
            Some(o) => if o.body_hash == f.body_hash {
                Change::Unchanged
            } else {
                Change::Modified
            },
        }
    }
}

pub open spec fn count_in_file(prev: ContextView, path: Seq<char>, fs: Seq<FunctionView>, c: Change) -> nat
    decreases fs.len(),
{
    if fs.len() == 0 {
        0
    } else {
        count_in_file(prev, path, fs.drop_last(), c) + if change_of(prev, path, fs.last()) == c {
            1nat
        } else {
            0nat
        }
    }
}

/// The number of merged functions with change `c`.
pub open spec fn count_changes(prev: ContextView, files: Seq<(Seq<char>, FileView)>, c: Change) -> nat
    decreases files.len(),
{
    if files.len() == 0 {
        0
    } else {
        count_changes(prev, files.drop_last(), c) + count_in_file(
            prev,
            files.last().0,
            files.last().1.functions,
            c,
        )
    }
}

/// The number of functions in all files.
pub open spec fn total_functions_of(files: Seq<(Seq<char>, FileView)>) -> nat
    decreases files.len(),
{
    if files.len() == 0 {
        0
    } else {
        total_functions_of(files.drop_last()) + files.last().1.functions.len()
    }
}

/// The counts of one update.
pub struct UpdateMetrics {
    pub total_files: usize,
    pub total_functions: usize,
    pub added_functions: usize,
    pub modified_functions: usize,
    /// Always zero: the count walks the merged files only.
    pub removed_functions: usize,
    pub unchanged_functions: usize,
    pub duration_ms: u64,
}

/// Counts of `merged` against `prev`.
pub open spec fn metrics_match(m: UpdateMetrics, prev: ContextView, merged: ContextView) -> bool {
    &&& m.total_files == merged.files.len()
    &&& m.total_functions == total_functions_of(merged.files)
    &&& m.added_functions == count_changes(prev, merged.files, Change::Added)
    &&& m.modified_functions == count_changes(prev, merged.files, Change::Modified)
    &&& m.unchanged_functions == count_changes(prev, merged.files, Change::Unchanged)
    &&& m.removed_functions == 0
}

proof fn lemma_file_identity(prev: ContextView, path: Seq<char>, fs: Seq<FunctionView>)
    ensures
        count_in_file(prev, path, fs, Change::Added) + count_in_file(prev, path, fs, Change::Modified)
            + count_in_file(prev, path, fs, Change::Unchanged) == fs.len(),
    decreases fs.len(),
{
    if fs.len() > 0 {
        lemma_file_identity(prev, path, fs.drop_last());
    }
}

/// Every merged function is added, modified or unchanged, and only one of them.
pub proof fn lemma_metric_identity(prev: ContextView, files: Seq<(Seq<char>, FileView)>)
    ensures
        count_changes(prev, files, Change::Added) + count_changes(prev, files, Change::Modified)
            + count_changes(prev, files, Change::Unchanged) == total_functions_of(files),
    decreases files.len(),
{
    if files.len() > 0 {
        lemma_metric_identity(prev, files.drop_last());
        lemma_file_identity(prev, files.last().0, files.last().1.functions);
    }
}

proof fn lemma_total_prefix(files: Seq<(Seq<char>, FileView)>, i: int)
    requires
        0 <= i <= files.len(),
    ensures
        total_functions_of(files.take(i)) <= total_functions_of(files),
    decreases files.len() - i,
{
    if i < files.len() {
        lemma_total_prefix(files, i + 1);
        assert(files.take(i + 1).drop_last() == files.take(i));
    } else {
        assert(files.take(i) == files);
    }
}

impl UpdateMetrics {
    /// The reuse ratio `unchanged / (unchanged + modified)` as a numerator and a
    /// positive denominator; one over one where no function was compared.
    pub fn reuse_fraction(&self) -> (r: (usize, usize))
        requires
            self.unchanged_functions + self.modified_functions <= usize::MAX,
        ensures
            r == if self.unchanged_functions + self.modified_functions == 0 {
                (1usize, 1usize)
            } else {
                (self.unchanged_functions, (self.unchanged_functions + self.modified_functions) as usize)
            },
            r.1 > 0,
            r.0 <= r.1,
            self.modified_functions == 0 ==> r.0 == r.1,
    {
        let d = self.unchanged_functions + self.modified_functions;
        if d == 0 {
            (1, 1)
        } else {
            (self.unchanged_functions, d)
        }
    }
}

/// Counts the functions of `merged` against `prev`.
pub fn compute_metrics(prev: &ProjectContext, merged: &ProjectContext, duration_ms: u64) -> (r: UpdateMetrics)
    requires
        prev@.wf(),
        total_functions_of(merged@.files) <= usize::MAX,
    ensures
        metrics_match(r, prev@, merged@),
        r.duration_ms == duration_ms,
        r.added_functions + r.modified_functions + r.unchanged_functions == r.total_functions,
{
    let ghost files = merged@.files;
    let mut added: usize = 0;
    let mut modified: usize = 0;
    let mut unchanged: usize = 0;
    let mut total: usize = 0;
    let mut i: usize = 0;
    while i < merged.files.len()
        invariant
            i <= files.len(),
            files == merged@.files,
            prev@.wf(),
            total_functions_of(files) <= usize::MAX,
            total == total_functions_of(files.take(i as int)),
            added == count_changes(prev@, files.take(i as int), Change::Added),
            modified == count_changes(prev@, files.take(i as int), Change::Modified),
            unchanged == count_changes(prev@, files.take(i as int), Change::Unchanged),
        decreases files.len() - i,
    {
        let ghost path = files[i as int].0;
        let ghost fs = files[i as int].1.functions;
        assert(files.take(i + 1).drop_last() == files.take(i as int));
        assert(files.take(i + 1).last() == files[i as int]);
        proof {
            lemma_total_prefix(files, i + 1);
            lemma_metric_identity(prev@, files.take(i as int));
        }
        let fns = &merged.files[i].1.functions;
        let found = find_key(&prev.files, &merged.files[i].0);
        let mut j: usize = 0;
        let ghost a0 = added;
        let ghost m0 = modified;
        let ghost u0 = unchanged;
        while j < fns.len()
            invariant
                j <= fs.len(),
                fs == fns_view(fns@),
                prev@.wf(),
                path == files[i as int].0,
                found matches Some(k) ==> k < prev@.files.len() && prev@.files[k as int].0 == path,
                found is None ==> !has_key(prev@.files, path),
                total + fs.len() <= usize::MAX,
                added == a0 + count_in_file(prev@, path, fs.take(j as int), Change::Added),
                modified == m0 + count_in_file(prev@, path, fs.take(j as int), Change::Modified),
                unchanged == u0 + count_in_file(prev@, path, fs.take(j as int), Change::Unchanged),
                a0 + m0 + u0 == total,
            decreases fs.len() - j,
        {
            proof {
                lemma_file_identity(prev@, path, fs.take(j as int));
            }
            assert(fs.take(j + 1).drop_last() == fs.take(j as int));
            assert(fs.take(j + 1).last() == fs[j as int]);
            let f = &fns[j];
            let c = match found {
                None => Change::Added,
                Some(k) => {
                    proof {
                        lemma_value_at(prev@.files, k as int);
                    }
                    match find_last_named(&prev.files[k].1.functions, &f.name) {
                        None => Change::Added,
                        Some(x) => if prev.files[k].1.functions[x].body_hash == f.body_hash {
                            Change::Unchanged
                        } else {
                            Change::Modified
                        },
                    }
                },
            };
            assert(c == change_of(prev@, path, fs[j as int]));
            match c {
                Change::Added => added = added + 1,
                Change::Modified => modified = modified + 1,
                Change::Unchanged => unchanged = unchanged + 1,
            }
            j = j + 1;
        }
        assert(fs.take(fs.len() as int) == fs);
        total = total + fns.len();
        i = i + 1;
    }
    assert(files.take(files.len() as int) == files);
    proof {
        lemma_metric_identity(prev@, files);
    }
    UpdateMetrics {
        total_files: merged.files.len(),
        total_functions: total,
        added_functions: added,
        modified_functions: modified,
        removed_functions: 0,
        unchanged_functions: unchanged,
        duration_ms,
    }
}

} // verus!

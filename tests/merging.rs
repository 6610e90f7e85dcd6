use codemap::digest::digest;
use codemap::merge::{merge_file, merge_project};
use codemap::metrics::compute_metrics;
use codemap::model::{EntryPoint, FileEntry, FunctionRecord, ProjectContext};
use codemap::snapshot::{build_snapshot, WalkItem, WalkKind};

fn folder(path: &str, children: &[&str]) -> WalkItem {
    WalkItem {
        path: path.to_string(),
        kind: WalkKind::Folder(children.iter().map(|c| c.to_string()).collect()),
    }
}

fn file(path: &str, text: &str) -> WalkItem {
    WalkItem { path: path.to_string(), kind: WalkKind::File(Some(text.to_string())) }
}

fn tree(main_rs: &str) -> Vec<WalkItem> {
    vec![folder("", &["src"]), folder("src", &["main.rs"]), file("src/main.rs", main_rs)]
}

fn functions<'a>(ctx: &'a ProjectContext, path: &str) -> &'a Vec<FunctionRecord> {
    &ctx.files.iter().find(|(p, _)| p == path).expect("file present").1.functions
}

fn record<'a>(ctx: &'a ProjectContext, path: &str, name: &str) -> Option<&'a FunctionRecord> {
    functions(ctx, path).iter().find(|f| f.name == name)
}

fn rec(name: &str, hash: &str, summary: Option<&str>) -> FunctionRecord {
    FunctionRecord {
        name: name.to_string(),
        line: 1,
        body_hash: hash.to_string(),
        summary: summary.map(|s| s.to_string()),
    }
}

#[test]
fn init_on_empty_repo() {
    let ctx = build_snapshot(tree("fn main() {}"));
    assert_eq!(ctx.files.len(), 1);
    let fs = functions(&ctx, "src/main.rs");
    assert_eq!(fs.len(), 1);
    assert_eq!(fs[0].name, "main");
    assert_eq!(fs[0].line, 1);
    assert_eq!(fs[0].summary, None);
    assert_eq!(fs[0].body_hash, digest("fn main() {}"));
    assert!(ctx.entry_points.is_empty());
    assert_eq!(ctx.project_brief, None);
    assert_eq!(ctx.folders.len(), 2);
}

#[test]
fn unchanged_update() {
    let prev = build_snapshot(tree("fn main() {}"));
    let fresh = build_snapshot(tree("fn main() {}"));
    let merged = merge_project(&prev, fresh);
    let m = compute_metrics(&prev, &merged, 0);
    assert_eq!(m.added_functions, 0);
    assert_eq!(m.modified_functions, 0);
    assert_eq!(m.unchanged_functions, 1);
    assert_eq!(m.total_functions, 1);
    assert_eq!(m.removed_functions, 0);
    assert_eq!(m.reuse_fraction(), (1, 1));
    let a = &functions(&prev, "src/main.rs")[0];
    let b = &functions(&merged, "src/main.rs")[0];
    assert_eq!((&a.name, a.line, &a.body_hash, &a.summary), (&b.name, b.line, &b.body_hash, &b.summary));
}

fn annotated_main() -> ProjectContext {
    let mut prev = build_snapshot(tree("fn main() {}"));
    prev.files[0].1.functions[0].summary = Some("entry".to_string());
    prev
}

#[test]
fn summary_carry_forward() {
    let prev = annotated_main();
    let fresh = build_snapshot(tree("fn main() {}\nfn help() {}\n"));
    let merged = merge_project(&prev, fresh);
    assert_eq!(record(&merged, "src/main.rs", "main").unwrap().summary.as_deref(), Some("entry"));
    assert_eq!(record(&merged, "src/main.rs", "help").unwrap().summary, None);
    let m = compute_metrics(&prev, &merged, 0);
    assert_eq!((m.added_functions, m.modified_functions, m.unchanged_functions), (1, 0, 1));
}

#[test]
fn body_edit_invalidates_summary() {
    let prev = merge_project(&annotated_main(), build_snapshot(tree("fn main() {}\nfn help() {}\n")));
    let fresh = build_snapshot(tree("fn main() { println!(\"hi\"); }\nfn help() {}\n"));
    let merged = merge_project(&prev, fresh);
    assert_eq!(record(&merged, "src/main.rs", "main").unwrap().summary, None);
    let m = compute_metrics(&prev, &merged, 0);
    assert_eq!(m.modified_functions, 1);
    assert_eq!(m.unchanged_functions, 1);
    assert_eq!(m.reuse_fraction(), (1, 2));
}

#[test]
fn deletion_drops_function() {
    let prev = build_snapshot(tree("fn main() { println!(\"hi\"); }\nfn help() {}\n"));
    let fresh = build_snapshot(tree("fn main() { println!(\"hi\"); }\n"));
    let merged = merge_project(&prev, fresh);
    assert!(record(&merged, "src/main.rs", "help").is_none());
    let m = compute_metrics(&prev, &merged, 0);
    assert_eq!(m.added_functions + m.modified_functions + m.unchanged_functions, m.total_functions);
    assert_eq!(m.total_functions, 1);
}

#[test]
fn deleted_file_is_dropped() {
    let mut items = tree("fn main() {}");
    items.push(file("src/old.rs", "fn gone() {}"));
    let prev = build_snapshot(items);
    let merged = merge_project(&prev, build_snapshot(tree("fn main() {}")));
    assert!(merged.files.iter().all(|(p, _)| p != "src/old.rs"));
}

#[test]
fn merge_is_idempotent_on_unchanged_tree() {
    let mut ctx = build_snapshot(tree("fn main() {}\nfn help() { main() }\n"));
    ctx.files[0].1.functions[1].summary = Some("helps".to_string());
    ctx.entry_points.push(EntryPoint { path: "src/main.rs".to_string(), rank: 9, reason: "r".to_string() });
    ctx.project_brief = Some("brief".to_string());
    let again = merge_project(&ctx, build_snapshot(tree("fn main() {}\nfn help() { main() }\n")));
    assert_eq!(format!("{:?}", again), format!("{:?}", ctx));
}

#[test]
fn merge_file_rules() {
    let old = FileEntry {
        language: "rust".to_string(),
        functions: vec![
            rec("same", "h1", Some("kept")),
            rec("changed", "h2", Some("stale")),
            rec("gone", "h3", Some("x")),
        ],
    };
    let new = FileEntry {
        language: "rust".to_string(),
        functions: vec![rec("changed", "h9", None), rec("same", "h1", None), rec("fresh", "h4", None)],
    };
    let m = merge_file(&old, new);
    let got: Vec<(&str, Option<&str>)> =
        m.functions.iter().map(|f| (f.name.as_str(), f.summary.as_deref())).collect();
    assert_eq!(got, vec![("changed", None), ("same", Some("kept")), ("fresh", None)]);
}

#[test]
fn merge_file_duplicate_names_use_last() {
    let old = FileEntry {
        language: "rust".to_string(),
        functions: vec![rec("f", "a", Some("first")), rec("f", "b", Some("second"))],
    };
    let new = FileEntry { language: "rust".to_string(), functions: vec![rec("f", "a", None), rec("f", "b", None)] };
    let m = merge_file(&old, new);
    assert_eq!(m.functions[0].summary, None);
    assert_eq!(m.functions[1].summary.as_deref(), Some("second"));
}

#[test]
fn snapshot_excludes_skipped_and_unsupported() {
    let items = vec![
        folder("", &["src", "target", ".git"]),
        folder("target", &["debug"]),
        file("target/gen.rs", "fn g() {}"),
        file(".git/hook.rs", "fn h() {}"),
        file("node_modules/x/index.js", "x"),
        file("src/notes.txt", "fn n() {}"),
        WalkItem { path: "src/broken.rs".to_string(), kind: WalkKind::File(None) },
        file("src/lib.py", "def f(): pass"),
    ];
    let ctx = build_snapshot(items);
    let paths: Vec<&str> = ctx.files.iter().map(|(p, _)| p.as_str()).collect();
    assert_eq!(paths, vec!["src/lib.py"]);
    assert_eq!(ctx.files[0].1.language, "python");
    assert!(ctx.files[0].1.functions.is_empty());
    let folders: Vec<&str> = ctx.folders.iter().map(|(p, _)| p.as_str()).collect();
    assert_eq!(folders, vec![""]);
}

#[test]
fn snapshot_later_entry_replaces_earlier() {
    let items = vec![file("a.rs", "fn one() {}"), file("b.rs", "fn b() {}"), file("a.rs", "fn two() {}")];
    let ctx = build_snapshot(items);
    let paths: Vec<&str> = ctx.files.iter().map(|(p, _)| p.as_str()).collect();
    assert_eq!(paths, vec!["a.rs", "b.rs"]);
    assert_eq!(ctx.files[0].1.functions[0].name, "two");
}

#[test]
fn metric_identity_over_mixed_changes() {
    let prev = build_snapshot(vec![
        file("a.rs", "fn x() {}\nfn y() {}\n"),
        file("b.rs", "fn z() {}\n"),
    ]);
    let fresh = build_snapshot(vec![
        file("a.rs", "fn x() {}\nfn y() { 1 }\nfn w() {}\n"),
        file("c.rs", "fn c1() {}\nfn c2() {}\n"),
    ]);
    let merged = merge_project(&prev, fresh);
    let m = compute_metrics(&prev, &merged, 42);
    assert_eq!(m.total_files, 2);
    assert_eq!(m.total_functions, 5);
    assert_eq!((m.added_functions, m.modified_functions, m.unchanged_functions), (3, 1, 1));
    assert_eq!(m.added_functions + m.modified_functions + m.unchanged_functions, m.total_functions);
    assert_eq!(m.duration_ms, 42);
    assert_eq!(m.reuse_fraction(), (1, 2));
}

#[test]
fn reuse_is_one_when_nothing_compared() {
    let prev = build_snapshot(vec![]);
    let merged = merge_project(&prev, build_snapshot(vec![file("a.rs", "fn a() {}")]));
    let m = compute_metrics(&prev, &merged, 0);
    assert_eq!(m.modified_functions, 0);
    assert_eq!(m.reuse_fraction(), (1, 1));
}

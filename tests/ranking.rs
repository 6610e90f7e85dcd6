use codemap::config::{note_count, parse_u64, ranker_settings, setting, setting_line};
use codemap::merge::merge_project;
use codemap::model::{EntryPoint, FileEntry, FunctionRecord, ProjectContext};
use codemap::ranker::{apply_fallback, apply_reply, build_prompt, gather_candidates, truncate_utf8};
use codemap::snapshot::{build_snapshot, WalkItem, WalkKind};

fn file(path: &str, text: &str) -> WalkItem {
    WalkItem { path: path.to_string(), kind: WalkKind::File(Some(text.to_string())) }
}

fn ctx_with(paths: &[(&str, usize)]) -> ProjectContext {
    let files = paths
        .iter()
        .map(|(p, n)| {
            let functions = (0..*n)
                .map(|i| FunctionRecord {
                    name: format!("f{}", i),
                    line: i + 1,
                    body_hash: String::new(),
                    summary: None,
                })
                .collect();
            (p.to_string(), FileEntry { language: "rust".to_string(), functions })
        })
        .collect();
    ProjectContext { folders: vec![], files, entry_points: vec![], project_brief: None }
}

#[test]
fn ranker_fallback_without_credential() {
    let prev = build_snapshot(vec![file("src/main.rs", "fn main() {}"), file("src/bin/worker.rs", "fn main() {}")]);
    let mut merged = merge_project(&prev, build_snapshot(vec![file("src/main.rs", "fn main() {}"), file("src/bin/worker.rs", "fn main() {}")]));
    apply_fallback(&mut merged);
    assert!(!merged.entry_points.is_empty());
    assert_eq!(merged.entry_points[0].path, "src/main.rs");
    assert_eq!(merged.entry_points[0].reason, "Binary entrypoint");
    assert_eq!(merged.entry_points[1].path, "src/bin/worker.rs");
    for w in merged.entry_points.windows(2) {
        assert!(w[0].rank > w[1].rank);
    }
    for e in &merged.entry_points {
        assert!((1..=10).contains(&e.rank));
    }
    assert_eq!(
        merged.project_brief.as_deref(),
        Some("No project brief is available yet: no ranker was reached, so entry points were chosen by file layout.")
    );
}

#[test]
fn candidate_priority_order() {
    let ctx = ctx_with(&[
        ("src/util.rs", 1),
        ("src/big.rs", 5),
        ("src/lib.rs", 0),
        ("src/bin/z.rs", 0),
        ("src/bin/a.rs", 0),
        ("src/http/Router.rs", 0),
        ("src/cli.rs", 2),
        ("src/main.rs", 0),
        ("src/other.rs", 5),
    ]);
    let c = gather_candidates(&ctx, 20);
    assert_eq!(
        c,
        vec![
            "src/main.rs",
            "src/lib.rs",
            "src/bin/a.rs",
            "src/bin/z.rs",
            "src/cli.rs",
            "src/http/Router.rs",
            "src/big.rs",
            "src/other.rs",
            "src/util.rs",
        ]
    );
    assert_eq!(gather_candidates(&ctx, 3), vec!["src/main.rs", "src/lib.rs", "src/bin/a.rs"]);
    assert!(gather_candidates(&ctx, 0).is_empty());
}

#[test]
fn fallback_keeps_seven_ranked_from_ten() {
    let names: Vec<String> = (0..12).map(|i| format!("m{:02}.rs", i)).collect();
    let pairs: Vec<(&str, usize)> = names.iter().map(|n| (n.as_str(), 1)).collect();
    let mut ctx = ctx_with(&pairs);
    ctx.project_brief = Some("kept".to_string());
    apply_fallback(&mut ctx);
    let ranks: Vec<u8> = ctx.entry_points.iter().map(|e| e.rank).collect();
    assert_eq!(ranks, vec![10, 9, 8, 7, 6, 5, 4]);
    assert_eq!(ctx.entry_points[0].path, "m00.rs");
    assert_eq!(ctx.entry_points[0].reason, "Likely important module");
    assert_eq!(ctx.project_brief.as_deref(), Some("kept"));
}

#[test]
fn fallback_leaves_existing_entry_points() {
    let mut ctx = ctx_with(&[("src/main.rs", 1)]);
    ctx.entry_points.push(EntryPoint { path: "src/main.rs".to_string(), rank: 3, reason: "given".to_string() });
    apply_fallback(&mut ctx);
    assert_eq!(ctx.entry_points.len(), 1);
    assert_eq!(ctx.entry_points[0].rank, 3);
    assert_eq!(ctx.project_brief, None);
}

#[test]
fn fallback_reason_for_routes() {
    let mut ctx = ctx_with(&[("src/api/routes.rs", 1)]);
    apply_fallback(&mut ctx);
    assert_eq!(ctx.entry_points[0].reason, "Routing hub");
}

#[test]
fn reply_accepted_and_rejected() {
    let mut ctx = ctx_with(&[("src/main.rs", 1)]);
    let good = vec![EntryPoint { path: "src/main.rs".to_string(), rank: 10, reason: "main".to_string() }];
    assert!(apply_reply(&mut ctx, good, "A brief.".to_string()));
    assert_eq!(ctx.entry_points.len(), 1);
    assert_eq!(ctx.project_brief.as_deref(), Some("A brief."));

    let mut ctx2 = ctx_with(&[("src/main.rs", 1)]);
    let bad_rank = vec![EntryPoint { path: "src/main.rs".to_string(), rank: 11, reason: "r".to_string() }];
    assert!(!apply_reply(&mut ctx2, bad_rank, "b".to_string()));
    let bad_path = vec![EntryPoint { path: "nope.rs".to_string(), rank: 5, reason: "r".to_string() }];
    assert!(!apply_reply(&mut ctx2, bad_path, "b".to_string()));
    assert!(ctx2.entry_points.is_empty());
    assert_eq!(ctx2.project_brief, None);
}

#[test]
fn truncation_respects_char_boundaries() {
    assert_eq!(truncate_utf8("hello", 3), "hel");
    assert_eq!(truncate_utf8("hello", 10), "hello");
    assert_eq!(truncate_utf8("héllo", 2), "h");
    assert_eq!(truncate_utf8("héllo", 3), "hé");
    assert_eq!(truncate_utf8("日本", 5), "日");
    assert_eq!(truncate_utf8("abc", 0), "");
}

#[test]
fn prompt_is_cut_at_budget() {
    let blocks = vec![("src/main.rs".to_string(), "fn main() {}".to_string())];
    let full = build_prompt(&blocks, 100_000);
    assert!(full.ends_with("\n### src/main.rs\nfn main() {}\n"));
    let cut = build_prompt(&blocks, 20);
    assert_eq!(cut.chars().count(), 20);
    assert!(full.starts_with(&cut));
}

#[test]
fn config_settings() {
    let text = "# comment\n[ai]\nllm_model = \"gpt-4o-mini\"\nmax_prompt_chars = 4000\n  llm_api_key=\"\"\nllm_api_key = \"k2\"\nbroken line\n";
    assert_eq!(setting(text, "llm_model").as_deref(), Some("gpt-4o-mini"));
    assert_eq!(setting(text, "max_prompt_chars").as_deref(), Some("4000"));
    assert_eq!(setting(text, "llm_api_key").as_deref(), Some("k2"));
    assert_eq!(setting(text, "missing"), None);
    let appended = format!("{}{}", text, setting_line("llm_api_key", "k3"));
    assert_eq!(setting(&appended, "llm_api_key").as_deref(), Some("k3"));
}

#[test]
fn decimal_parsing() {
    assert_eq!(parse_u64("4000"), Some(4000));
    assert_eq!(parse_u64("0"), Some(0));
    assert_eq!(parse_u64("18446744073709551615"), Some(u64::MAX));
    assert_eq!(parse_u64("18446744073709551616"), None);
    assert_eq!(parse_u64(""), None);
    assert_eq!(parse_u64("-3"), None);
    assert_eq!(parse_u64("12a"), None);
}

#[test]
fn ranker_settings_rules() {
    let text = "llm_provider = \"openai\"\nllm_api_key = \"cfg\"\nmax_prompt_chars = 1200\n";
    let s = ranker_settings(text, None).expect("configured credential");
    assert_eq!(s.credential, "cfg");
    assert_eq!(s.model, "gpt-4o-mini");
    assert_eq!(s.max_prompt_chars, 1200);
    let s = ranker_settings(text, Some("env".to_string())).unwrap();
    assert_eq!(s.credential, "env");
    let s = ranker_settings(text, Some(String::new())).unwrap();
    assert_eq!(s.credential, "cfg");
    assert!(ranker_settings("llm_api_key = \"\"\n", None).is_none());
    assert!(ranker_settings("llm_provider = \"other\"\n", Some("env".to_string())).is_none());
    let s = ranker_settings("llm_model = \"m\"\nmax_prompt_chars = x\n", Some("k".to_string())).unwrap();
    assert_eq!(s.model, "m");
    assert_eq!(s.max_prompt_chars, 4000);
}

#[test]
fn note_count_rules() {
    assert_eq!(note_count(None, ""), Some(3));
    assert_eq!(note_count(None, "default_note_count = 5\n"), Some(5));
    assert_eq!(note_count(None, "default_note_count = 0\n"), Some(3));
    assert_eq!(note_count(Some("7".to_string()), ""), Some(7));
    assert_eq!(note_count(Some("0".to_string()), ""), None);
    assert_eq!(note_count(Some("-2".to_string()), ""), None);
}

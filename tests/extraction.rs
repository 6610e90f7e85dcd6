use codemap::digest::{digest, hex_encode};
use codemap::extract::extract;
use codemap::language::classify;
use codemap::paths::{extension, is_skipped_path, language_of_path};

#[test]
fn digest_of_empty_text() {
    assert_eq!(
        digest(""),
        "e3b0c44298fc1c149afbf4c8996fb92427ae41e4649b934ca495991b7852b855"
    );
}

#[test]
fn digest_of_abc() {
    assert_eq!(
        digest("abc"),
        "ba7816bf8f01cfea414140de5dae2223b00361a396177a9cb410ff61f20015ad"
    );
}

#[test]
fn hex_encoding_is_lowercase_high_nibble_first() {
    assert_eq!(hex_encode(&[0x00, 0x0f, 0xa5, 0xff]), "000fa5ff");
    assert_eq!(hex_encode(&[]), "");
}

#[test]
fn classify_known_extensions() {
    assert_eq!(classify("rs").as_deref(), Some("rust"));
    assert_eq!(classify("RS").as_deref(), Some("rust"));
    assert_eq!(classify("py").as_deref(), Some("python"));
    assert_eq!(classify("js").as_deref(), Some("javascript"));
    assert_eq!(classify("Ts").as_deref(), Some("typescript"));
    assert_eq!(classify("java").as_deref(), Some("java"));
    assert_eq!(classify("go").as_deref(), Some("go"));
    assert_eq!(classify("c").as_deref(), Some("c"));
    for e in ["cpp", "cc", "cxx", "c++", "CPP"] {
        assert_eq!(classify(e).as_deref(), Some("cpp"));
    }
}

#[test]
fn classify_rejects_other_extensions() {
    assert_eq!(classify("txt"), None);
    assert_eq!(classify(""), None);
    assert_eq!(classify("rss"), None);
    assert_eq!(classify("json"), None);
}

#[test]
fn extension_of_paths() {
    assert_eq!(extension("src/a.b.rs").as_deref(), Some("rs"));
    assert_eq!(extension("src/main.rs").as_deref(), Some("rs"));
    assert_eq!(extension(".bashrc"), None);
    assert_eq!(extension("Makefile"), None);
    assert_eq!(extension("dir.d/file"), None);
    assert_eq!(language_of_path("lib/x.CC").as_deref(), Some("cpp"));
    assert_eq!(language_of_path("README.md"), None);
}

#[test]
fn skipped_paths() {
    assert!(is_skipped_path("target/debug/a.rs"));
    assert!(is_skipped_path("a/node_modules/b.js"));
    assert!(is_skipped_path(".git/config"));
    assert!(is_skipped_path("x/.venv/y.py"));
    assert!(is_skipped_path("pkg/__pycache__/m.py"));
    assert!(is_skipped_path("src/.hidden/a.rs"));
    assert!(is_skipped_path(".github"));
    assert!(!is_skipped_path(".codemap"));
    assert!(!is_skipped_path(".codemap/context.json"));
    assert!(!is_skipped_path("src/main.rs"));
    assert!(!is_skipped_path("src/targets/a.rs"));
    assert!(!is_skipped_path(""));
}

#[test]
fn extract_single_main() {
    let fs = extract("fn main() {}", "rust");
    assert_eq!(fs.len(), 1);
    assert_eq!(fs[0].name, "main");
    assert_eq!(fs[0].line, 1);
    assert_eq!(fs[0].summary, None);
    assert_eq!(fs[0].body_hash, digest("fn main() {}"));
    assert_eq!(fs[0].body_hash.len(), 64);
}

#[test]
fn extract_headers_and_bodies() {
    let src = "use x;\n\npub fn a(x: u8) -> u8 {\n    x + 1\n}\n  pub async fn b() {\n}\nasync fn c() { }\nfn\td() {}\n";
    let fs = extract(src, "rust");
    let names: Vec<&str> = fs.iter().map(|f| f.name.as_str()).collect();
    assert_eq!(names, vec!["a", "b", "c", "d"]);
    let lines: Vec<usize> = fs.iter().map(|f| f.line).collect();
    assert_eq!(lines, vec![3, 6, 8, 9]);
    assert_eq!(fs[0].body_hash, digest("pub fn a(x: u8) -> u8 {\n    x + 1\n}"));
    assert_eq!(fs[1].body_hash, digest("  pub async fn b() {\n}"));
    assert_eq!(fs[2].body_hash, digest("async fn c() { }"));
}

#[test]
fn extract_ignores_non_headers() {
    let src = "pub(crate) fn hidden() {}\nconst fn k() {}\nfnord x\nfn () {}\nlet f = fn_call();\n// fn\n";
    assert!(extract(src, "rust").is_empty());
}

#[test]
fn extract_unclosed_body_runs_to_end() {
    let src = "fn open() {\n  if x {\n";
    let fs = extract(src, "rust");
    assert_eq!(fs.len(), 1);
    assert_eq!(fs[0].body_hash, digest(src));
}

#[test]
fn extract_body_waits_for_first_brace() {
    let src = "fn long(\n  a: u8,\n) {\n}\nfn next() {}";
    let fs = extract(src, "rust");
    assert_eq!(fs.len(), 2);
    assert_eq!(fs[0].body_hash, digest("fn long(\n  a: u8,\n) {\n}"));
    assert_eq!(fs[1].line, 5);
}

#[test]
fn extract_nested_function_gets_its_own_record() {
    let src = "impl S {\n    fn m(&self) {\n        fn inner() {}\n    }\n}\n";
    let fs = extract(src, "rust");
    let names: Vec<&str> = fs.iter().map(|f| f.name.as_str()).collect();
    assert_eq!(names, vec!["m", "inner"]);
    assert_eq!(fs[0].body_hash, digest("    fn m(&self) {\n        fn inner() {}\n    }"));
}

#[test]
fn extract_other_languages_is_empty() {
    assert!(extract("def f():\n  pass\n", "python").is_empty());
    assert!(extract("fn main() {}", "Rust").is_empty());
    assert!(extract("", "rust").is_empty());
}

#[test]
fn extract_is_deterministic() {
    let src = "fn a() {}\nfn b() { a(); }\n";
    let x = extract(src, "rust");
    let y = extract(src, "rust");
    assert_eq!(x.len(), y.len());
    for (p, q) in x.iter().zip(y.iter()) {
        assert_eq!(p.name, q.name);
        assert_eq!(p.line, q.line);
        assert_eq!(p.body_hash, q.body_hash);
    }
}

#[test]
fn hash_stable_when_span_unchanged() {
    let before = extract("fn a() {\n  1\n}\nfn b() {}\n", "rust");
    let after = extract("// note\n\nfn a() {\n  1\n}\n\n\nfn b() { 2 }\n", "rust");
    assert_eq!(before[0].body_hash, after[0].body_hash);
    assert_eq!(after[0].line, 3);
    assert_ne!(before[1].body_hash, after[1].body_hash);
}

#[test]
fn extract_non_ascii_names() {
    let fs = extract("fn é() {}\npub fn café(x: u8) {}\nfn 名前_1() {}\n", "rust");
    let names: Vec<&str> = fs.iter().map(|f| f.name.as_str()).collect();
    assert_eq!(names, vec!["é", "café", "名前_1"]);
    assert_eq!(fs[1].line, 2);
    assert_eq!(fs[1].body_hash, digest("pub fn café(x: u8) {}"));
}

#[test]
fn digest_is_lowercase_hex() {
    let h = digest("fn main() {}");
    assert_eq!(h.len(), 64);
    assert!(h.chars().all(|c| c.is_ascii_digit() || ('a'..='f').contains(&c)));
}

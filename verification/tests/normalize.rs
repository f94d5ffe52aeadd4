use applicant_advocate::normalize::{expand, normalize_token, normalized_set, seed_aliases, tokenize};

#[test]
fn empty_token_normalizes_to_empty() {
    assert_eq!(normalize_token(""), "");
    assert_eq!(normalize_token("   "), "");
}

#[test]
fn case_folds() {
    assert_eq!(normalize_token("JS"), "js");
    assert_eq!(normalize_token("Js"), "js");
    assert_eq!(normalize_token("javaScript"), "javascript");
}

#[test]
fn js_aliases_to_javascript() {
    let a = seed_aliases();
    let set = normalized_set("JS", &a);
    assert!(set.contains(&"js".to_string()));
    assert!(set.contains(&"javascript".to_string()));
}

#[test]
fn cicd_expands_to_continuous_integration() {
    let a = seed_aliases();
    let set = normalized_set("CI/CD", &a);
    assert!(set.contains(&"ci/cd".to_string()));
    assert!(set.contains(&"continuous".to_string()));
    assert!(set.contains(&"integration".to_string()));
}

#[test]
fn unicode_preserved_and_lowercased() {
    assert_eq!(normalize_token("Café"), "café");
    let a = seed_aliases();
    let set = normalized_set("golang", &a);
    assert!(set.contains(&"go".to_string()));
}

#[test]
fn hostile_long_token_and_control_chars_no_panic() {
    let long = "x".repeat(10_000);
    assert_eq!(normalize_token(&long).len(), 10_000);
    let ctrl = "a\u{0007}b\u{0000}c".to_string();
    assert_eq!(normalize_token(&ctrl), "abc");
}

#[test]
fn tokenize_splits_on_punctuation_keeps_slash() {
    let toks = tokenize("Strong TypeScript, Python; CI/CD.");
    assert!(toks.contains(&"strong".to_string()));
    assert!(toks.contains(&"typescript".to_string()));
    assert!(toks.contains(&"python".to_string()));
    assert!(toks.contains(&"ci/cd".to_string()));
}

#[test]
fn expand_unknown_token_returns_itself() {
    let a = seed_aliases();
    assert_eq!(expand("rust", &a), vec!["rust".to_string()]);
}

#[test]
fn normalized_set_dedups() {
    let a = seed_aliases();
    let set = normalized_set("go go golang", &a);
    assert_eq!(set.iter().filter(|t| *t == "go").count(), 1);
}

#[test]
fn normalize_token_trims_and_lowercases() {
    assert_eq!(normalize_token("  Rust  "), "rust");
}

#[test]
fn tokenize_drops_empty_pieces() {
    assert_eq!(tokenize(" , ;; "), Vec::<String>::new());
    assert_eq!(tokenize("a,b"), vec!["a".to_string(), "b".to_string()]);
}

#[test]
fn expand_known_alias_yields_token_then_canonical_words() {
    let a = seed_aliases();
    assert_eq!(expand("k8s", &a), vec!["k8s".to_string(), "kubernetes".to_string()]);
}

#[test]
fn normalized_set_has_no_duplicates() {
    let a = seed_aliases();
    let set = normalized_set("JS js javascript JavaScript", &a);
    let mut seen = std::collections::HashSet::new();
    for t in &set {
        assert!(seen.insert(t.clone()));
    }
    assert!(set.contains(&"javascript".to_string()));
}

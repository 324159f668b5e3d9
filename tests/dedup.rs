use drice::classify::code_uses_internal_features;
use drice::dedup::{destination_dir, ClassificationOutcome, RunState};
use drice::order::sort_names;

fn diagnostic(location: &str, message: &str) -> String {
    format!(
        "error: the compiler unexpectedly panicked. this is a bug.\n\
         thread 'rustc' (1) panicked at {location}:\n\
         {message}\n\
         query stack during panic:\n\
         #0 [typeck] type-checking `main`\n\
         end of query stack\n"
    )
}

fn registry() -> Vec<(String, String)> {
    vec![("ice/100.rs".to_string(), diagnostic("k/n.rs:1:1", "known crash"))]
}

fn corpus() -> Vec<(String, String, String)> {
    vec![
        ("a.rs".to_string(), "fn main() {}".to_string(), "error[E0308]: mismatched types\n".to_string()),
        ("b.rs".to_string(), "fn f() {}".to_string(), diagnostic("k/n.rs:1:1", "known crash")),
        ("c.rs".to_string(), "fn g() {}".to_string(), diagnostic("x/y.rs:2:2", "new crash")),
        ("d.rs".to_string(), "fn h() {}".to_string(), diagnostic("x/y.rs:2:2", "new crash again")),
        ("e.rs".to_string(), "#![feature(core_intrinsics)]".to_string(), diagnostic("z.rs:1:1", "z")),
        ("f.rs".to_string(), "fn i() {}".to_string(), diagnostic("p/q.rs:3:3", "another crash")),
        ("g.rs".to_string(), "fn j() {}".to_string(), format!("{}warning: the feature `x` is incomplete and may not be safe to use and/or cause compiler crashes\n", diagnostic("w.rs:1:1", "w"))),
    ]
}

fn run(files: &[(String, String, String)]) -> Vec<Option<&'static str>> {
    let registry = registry();
    let mut state = RunState::new();
    let mut places = Vec::new();
    for (path, source, diag) in files {
        let outcome = if code_uses_internal_features(source) {
            ClassificationOutcome::ExcludedInternal
        } else {
            state.classify(path, diag, &registry)
        };
        places.push(destination_dir(&outcome));
    }
    places
}

#[test]
fn outcomes_of_a_run() {
    let registry = registry();
    let mut state = RunState::new();
    let files = corpus();
    assert!(matches!(state.classify(&files[0].0, &files[0].2, &registry), ClassificationOutcome::NotAFailure));
    match state.classify(&files[1].0, &files[1].2, &registry) {
        ClassificationOutcome::DuplicateOfKnown(id) => assert_eq!(id, "ice/100.rs"),
        _ => panic!("expected a known duplicate"),
    }
    assert!(matches!(state.classify(&files[2].0, &files[2].2, &registry), ClassificationOutcome::Unique));
    assert_eq!(state.len(), 1);
    match state.classify(&files[3].0, &files[3].2, &registry) {
        ClassificationOutcome::DuplicateOfSeen(p) => assert_eq!(p, "c.rs"),
        _ => panic!("expected a duplicate of c.rs"),
    }
    assert!(matches!(state.classify(&files[6].0, &files[6].2, &registry), ClassificationOutcome::ExcludedInternal));
    assert_eq!(state.len(), 1);
    assert_eq!(state.first_seen(&files[3].2).as_deref(), Some("c.rs"));
}

#[test]
fn every_file_gets_one_place() {
    let places = run(&corpus());
    assert_eq!(places, vec![Some("ok"), Some("known"), None, Some("dups"), None, None, None]);
}

#[test]
fn second_run_moves_nothing() {
    let files = corpus();
    let places = run(&files);
    let kept: Vec<(String, String, String)> = files
        .iter()
        .zip(places.iter())
        .filter(|(_, p)| p.is_none())
        .map(|(f, _)| f.clone())
        .collect();
    assert_eq!(kept.len(), 4);
    assert!(run(&kept).iter().all(|p| p.is_none()));
}

#[test]
fn destinations() {
    assert_eq!(destination_dir(&ClassificationOutcome::NotAFailure), Some("ok"));
    assert_eq!(destination_dir(&ClassificationOutcome::DuplicateOfKnown("k".to_string())), Some("known"));
    assert_eq!(destination_dir(&ClassificationOutcome::DuplicateOfSeen("p".to_string())), Some("dups"));
    assert_eq!(destination_dir(&ClassificationOutcome::Unique), None);
    assert_eq!(destination_dir(&ClassificationOutcome::ExcludedInternal), None);
}

#[test]
fn names_sorted_lexically() {
    let names: Vec<String> = ["dir/b.rs", "dir/a.rs", "dir/B.rs", "dir/ab.rs", "dir/a.rs", "dir/é.rs", "dir/10.rs", "dir/9.rs"]
        .iter()
        .map(|s| s.to_string())
        .collect();
    let mut expected = names.clone();
    expected.sort();
    assert_eq!(sort_names(&names), expected);
    assert_eq!(
        sort_names(&names),
        vec!["dir/10.rs", "dir/9.rs", "dir/B.rs", "dir/a.rs", "dir/a.rs", "dir/ab.rs", "dir/b.rs", "dir/é.rs"]
    );
    assert!(sort_names(&Vec::new()).is_empty());
}

use drice::classify::{code_uses_internal_features, is_ice, uses_internal_features};
use drice::compare::{lookup_known, same};
use drice::fingerprint::{extract_file_path, extract_message, extract_query_stack, glance_report};

fn diagnostic(location: &str, message: &str, item: &str) -> String {
    format!(
        "error: the compiler unexpectedly panicked. this is a bug.\n\
         \n\
         thread 'rustc' (843541) panicked at {location}:\n\
         {message}\n\
         stack backtrace:\n\
         \x20  0: rust_begin_unwind\n\
         \n\
         query stack during panic:\n\
         #0 [typeck] type-checking `{item}`\n\
         #1 [analysis] running analysis passes on this crate\n\
         end of query stack\n"
    )
}

fn samples() -> Vec<String> {
    vec![
        diagnostic("compiler/rustc_hir_analysis/src/hir_ty_lowering/dyn_trait.rs:425:17", "index out of bounds: the len is 0 but the index is 3", "main"),
        diagnostic("compiler/rustc_middle/src/ty/sty.rs:12:9", "cannot find type X", "foo::bar"),
        "error: internal compiler error: compiler/rustc_mir_build/src/builder/mod.rs:1:2: broken MIR\n\nnote: delayed at compiler/rustc_mir_build/src/builder/mod.rs:1:2:\n".to_string(),
        "error[E0425]: cannot find value `x` in this scope\n".to_string(),
        String::new(),
    ]
}

#[test]
fn test_extract_file_path() {
    assert_eq!(extract_file_path("foo").as_deref(), None);
    assert_eq!(
        extract_file_path(
            "thread 'rustc' (843541) panicked at compiler/rustc_hir_analysis/src/hir_ty_lowering/dyn_trait.rs:425:17:"
        ).as_deref(),
        Some("compiler/rustc_hir_analysis/src/hir_ty_lowering/dyn_trait.rs:425:17")
    );
}

#[test]
fn test_same_reflexive() {
    for content in samples() {
        assert!(same(&content, &content));
    }
}

#[test]
fn location_absent_without_markers() {
    assert_eq!(extract_file_path(""), None);
    assert_eq!(extract_file_path("error: internal compiler error: oops\nthread 'main' panicked\n"), None);
}

#[test]
fn location_prefers_panic_header_over_delayed_note() {
    let s = "note: delayed at a/b.rs:1:1:\nthread 'rustc' panicked at c/d.rs:2:2:\n";
    assert_eq!(extract_file_path(s).as_deref(), Some("c/d.rs:2:2"));
    let s = "x\r\nnote: delayed at a/b.rs:1:1:\r\n";
    assert_eq!(extract_file_path(s).as_deref(), Some("a/b.rs:1:1"));
}

#[test]
fn location_needs_thread_prefix() {
    assert_eq!(extract_file_path("thread 'main' panicked at a.rs:1:1:"), None);
    assert_eq!(extract_file_path("thread 'rustc' panicked at "), Some(String::new()));
}

#[test]
fn message_from_ice_line_strips_path_stamp() {
    let s = "error: internal compiler error: compiler/rustc_middle/src/ty/mod.rs:123:45: unexpected thing here\n";
    assert_eq!(extract_message(s).as_deref(), Some("unexpected thing here"));
}

#[test]
fn message_from_ice_line_without_stamp() {
    let s = "error: internal compiler error: no stamp: here\n";
    assert_eq!(extract_message(s).as_deref(), Some("no stamp: here"));
    let s = "error: internal compiler error: a/b:1\n";
    assert_eq!(extract_message(s).as_deref(), Some(""));
}

#[test]
fn message_after_panic_header() {
    let s = diagnostic("a/b.rs:1:2", "index out of bounds: the len is 0 but the index is 3", "main");
    assert_eq!(extract_message(&s).as_deref(), Some("index out of bounds: the len is 0 but the index is 3"));
    assert_eq!(extract_message("nothing here\n"), None);
    assert_eq!(extract_message("thread 'rustc' panicked at a.rs:1:1:"), None);
}

#[test]
fn query_stack_is_redacted() {
    let s = diagnostic("a/b.rs:1:2", "boom", "main");
    assert_eq!(
        extract_query_stack(&s).as_deref(),
        Some("query stack during panic:\n#0 [typeck] type-checking ``\n#1 [analysis] running analysis passes on this crate\nend of query stack\n")
    );
}

#[test]
fn redaction_ignores_the_name() {
    let a = diagnostic("a/b.rs:1:2", "boom", "main");
    let b = diagnostic("a/b.rs:1:2", "boom", "some::other::item");
    assert_eq!(extract_query_stack(&a), extract_query_stack(&b));
}

#[test]
fn query_stack_keeps_single_backtick_and_trims_markers() {
    let s = "  query stack during panic:  \nframe with one ` tick\r\nend of query stack\n";
    assert_eq!(
        extract_query_stack(s).as_deref(),
        Some("  query stack during panic:  \nframe with one ` tick\nend of query stack\n")
    );
}

#[test]
fn query_stack_absent_without_both_markers() {
    assert_eq!(extract_query_stack("query stack during panic:\n#0 x\n"), None);
    assert_eq!(extract_query_stack("end of query stack\nquery stack during panic:\n"), None);
    assert_eq!(extract_query_stack(""), None);
}

#[test]
fn same_when_only_the_index_differs() {
    let known = diagnostic("a/b.rs:1:2", "index out of bounds: the len is 0 but the index is 3", "main");
    let candidate = diagnostic("a/b.rs:1:2", "index out of bounds: the len is 0 but the index is 7", "main");
    assert!(same(&candidate, &known));
}

#[test]
fn distinct_when_first_words_differ() {
    let a = diagnostic("a/b.rs:1:2", "cannot find type X", "main");
    let b = diagnostic("a/b.rs:1:2", "overflow evaluating Y", "main");
    assert!(!same(&a, &b));
}

#[test]
fn same_when_a_first_word_is_exempt() {
    let a = diagnostic("a/b.rs:1:2", "`Foo` is not a type", "main");
    let b = diagnostic("a/b.rs:1:2", "overflow evaluating Y", "main");
    assert!(same(&a, &b));
    let c = diagnostic("a/b.rs:1:2", "[u8; 3] has no layout", "main");
    assert!(same(&c, &b));
}

#[test]
fn distinct_on_location_or_stack() {
    let a = diagnostic("a/b.rs:1:2", "boom", "main");
    let b = diagnostic("a/b.rs:1:3", "boom", "main");
    assert!(!same(&a, &b));
    let c = a.replace("[typeck]", "[mir_built]");
    assert!(!same(&a, &c));
}

#[test]
fn never_same_without_location() {
    let a = "error: internal compiler error: oops\n";
    let b = "error: internal compiler error: oops \n";
    assert!(!same(a, b));
    assert!(same(a, a));
}

#[test]
fn lookup_returns_first_matching_entry() {
    let registry = vec![
        ("ice/1.rs".to_string(), diagnostic("x/y.rs:9:9", "other", "main")),
        ("ice/2.rs".to_string(), diagnostic("a/b.rs:1:2", "index out of bounds: the len is 0 but the index is 3", "main")),
        ("ice/3.rs".to_string(), diagnostic("a/b.rs:1:2", "index out of bounds: the len is 1 but the index is 4", "main")),
    ];
    let s = diagnostic("a/b.rs:1:2", "index out of bounds: the len is 0 but the index is 7", "f");
    assert_eq!(lookup_known(&s, &registry).as_deref(), Some("ice/2.rs"));
    let t = diagnostic("q/r.rs:1:2", "boom", "f");
    assert_eq!(lookup_known(&t, &registry), None);
    assert_eq!(lookup_known(&t, &[]), None);
}

#[test]
fn ice_markers() {
    assert!(is_ice("error: internal compiler error: x"));
    assert!(is_ice("a\nerror: the compiler unexpectedly panicked. this is a bug."));
    assert!(is_ice("error: rustc interrupted by SIGSEGV, printing backtrace\n"));
    assert!(!is_ice("error[E0308]: mismatched types"));
    assert!(!is_ice(""));
}

#[test]
fn internal_feature_markers() {
    assert!(code_uses_internal_features("#![feature(core_intrinsics)]\nfn main() {}"));
    assert!(code_uses_internal_features("#[rustc_dummy]\nstruct S;"));
    assert!(code_uses_internal_features("#![feature(staged_api)]"));
    assert!(!code_uses_internal_features("fn main() {}"));
    assert!(uses_internal_features("warning: the feature `x` is incomplete and may not be safe to use and/or cause compiler crashes"));
    assert!(uses_internal_features("the feature `y` is internal to the compiler or standard library"));
    assert!(!uses_internal_features("error: internal compiler error: x"));
}

#[test]
fn glance_shows_fields_and_placeholders() {
    let s = diagnostic("a/b.rs:1:2", "boom", "main");
    assert_eq!(
        glance_report(&s),
        "a/b.rs:1:2\nboom\nquery stack during panic:\n#0 [typeck] type-checking ``\n#1 [analysis] running analysis passes on this crate\nend of query stack\n\n"
    );
    assert_eq!(glance_report("plain"), "(no path)\n(no message)\n(no query stack)\n");
}

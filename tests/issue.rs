use drice::invoke::{verbosity_to_log_level, wants_edition_2024, LogLevel};
use drice::issue::{extract_rust_code_block, report_name};
use drice::widgets::{Box, Canvas, Empty, HBox};

#[test]
fn code_block_of_an_issue() {
    let md = "Some text\n```console\n$ rustc x.rs\n```\n\n```rust\nfn main() {\n    loop {}\n}\n```\nmore\n";
    assert_eq!(extract_rust_code_block(md).as_deref(), Some("fn main() {\n    loop {}\n}"));
    let md = "  ``` Rust \r\nstruct S;\r\n```";
    assert_eq!(extract_rust_code_block(md).as_deref(), Some("struct S;"));
    assert_eq!(extract_rust_code_block("```rust\nfn main() {}\n"), None);
    assert_eq!(extract_rust_code_block("no code"), None);
    assert_eq!(extract_rust_code_block("```rust\n```"), Some(String::new()));
}

#[test]
fn report_names() {
    assert_eq!(report_name("148621.rs"), "148621");
    assert_eq!(report_name("148621"), "148621");
    assert_eq!(report_name(".rs"), "");
    assert_eq!(report_name("rs"), "rs");
}

#[test]
fn edition_flag() {
    assert!(wants_edition_2024("// @compile-flags: --edition=2024\nfn main() {}"));
    assert!(!wants_edition_2024("fn main() {}"));
}

#[test]
fn verbosity_levels() {
    assert_eq!(verbosity_to_log_level(0), LogLevel::Warn);
    assert_eq!(verbosity_to_log_level(1), LogLevel::Info);
    assert_eq!(verbosity_to_log_level(2), LogLevel::Debug);
    assert_eq!(verbosity_to_log_level(3), LogLevel::Trace);
    assert_eq!(verbosity_to_log_level(200), LogLevel::Trace);
}

#[test]
fn canvas_text() {
    let c: Canvas<3, 2> = Canvas::new(Some('#'));
    assert_eq!(c.to_text(), "###\n###\n");
    let blank: Canvas<2, 1> = Canvas::default();
    assert_eq!(blank.to_text(), "  \n");
    let mut d: Canvas<2, 2> = Canvas::new(None);
    d.0[1][0] = Some('x');
    assert_eq!(d.to_text(), "  \nx \n");
}

#[test]
fn test_foo() {
    let w = HBox::<20, 4, _>::new((
        Box::<9, 2, _>::new(Empty::<7, 0>).border(Some('#')),
        Box::<9, 2, _>::new(Empty::<7, 0>).border(Some('#')),
    ));

    println!("{}", w.render().to_text());
    assert_eq!(w.inner.0.border, Some('#'));
    assert_eq!(w.render().to_text(), format!("{}\n", " ".repeat(20)).repeat(4));
    let e: Box<9, 4, Empty<7, 2>> = Box::<9, 4, Empty<7, 2>>::empty::<9, 4, 7, 2>();
    assert_eq!(e.border, None);
}

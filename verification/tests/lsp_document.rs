//! Tests of what the editor shows for a whole document.

use cianity::lsp::document::{collect_diagnostics, edits};
use cianity::lsp::Position;
use cianity::parser::parse;
use cianity::validation::Severity;

#[test]
fn diagnostics_list_parse_errors_first_with_their_positions() {
    let src = "workflow ci {\n    stage build }\n";
    let parsed = parse(src);
    let diags = collect_diagnostics(&parsed, src);
    assert!(!parsed.errors().is_empty());
    assert_eq!(diags.len() >= parsed.errors().len(), true);
    for (d, e) in diags.iter().zip(parsed.errors().iter()) {
        assert_eq!(d.severity, Severity::Error);
        assert_eq!(d.message, e.message);
    }
    assert_eq!(diags[0].range.start.line, 1, "the error is on the second line");
}

#[test]
fn diagnostics_of_a_clean_document_are_empty() {
    let src = "workflow ci {\n    stage build {\n        job compile { cargo build }\n    }\n}\n";
    let parsed = parse(src);
    assert!(collect_diagnostics(&parsed, src).is_empty());
}

#[test]
fn diagnostics_include_validation_warnings_and_errors() {
    let src = "workflow ci {\n    stage build {\n        job compile ( foo = bar ) { cargo build }\n    }\n}\n";
    let parsed = parse(src);
    let diags = collect_diagnostics(&parsed, src);
    assert_eq!(diags.len(), 1);
    assert!(diags[0].message.contains("unknown attribute `foo`"), "{:?}", diags[0].message);
    assert_eq!(diags[0].range.start.line, 2);
}

#[test]
fn formatting_a_canonical_document_edits_nothing() {
    let src = "workflow w {\n    stage build {\n        job compile { cargo build }\n    }\n}\n";
    let parsed = parse(src);
    let e = edits(&parsed, src).expect("formattable");
    assert!(e.is_empty());
}

#[test]
fn formatting_replaces_the_whole_document() {
    let src = "workflow w { stage build { job compile { cargo build } } }";
    let parsed = parse(src);
    let e = edits(&parsed, src).expect("formattable");
    assert_eq!(e.len(), 1);
    assert_eq!(e[0].range.start, Position { line: 0, character: 0 });
    assert_eq!(e[0].range.end, Position { line: 0, character: src.chars().count() });
    assert_eq!(e[0].new_text, "workflow w {\n    stage build {\n        job compile { cargo build }\n    }\n}\n");
}

#[test]
fn formatting_a_defaults_block_gives_no_answer() {
    let src = "workflow w { defaults(runner=docker) }";
    let parsed = parse(src);
    assert!(edits(&parsed, src).is_none());
}

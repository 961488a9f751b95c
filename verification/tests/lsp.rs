//! Tests of the editor support: positions, hovers and completions.

use cianity::lsp::{
    completion_at, hover_at, offset_to_position, position_to_offset, token_at, CompletionKind,
    Position,
};
use cianity::parser::parse;

fn offset_of(source: &str, needle: &str) -> usize {
    source
        .find(needle)
        .unwrap_or_else(|| panic!("{needle:?} not found in source"))
}

/// The offset of the `n`th occurrence of `needle` (1-based).
fn nth_offset(source: &str, needle: &str, n: usize) -> usize {
    let mut search_from = 0;
    for _ in 1..n {
        let rel = source[search_from..]
            .find(needle)
            .unwrap_or_else(|| panic!("{needle:?} occurrence before {n} not found in source"));
        search_from += rel + needle.len();
    }
    search_from
        + source[search_from..]
            .find(needle)
            .unwrap_or_else(|| panic!("{needle:?} occurrence {n} not found in source"))
}

fn hover_text(source: &str, offset: usize) -> Option<String> {
    let parsed = parse(source);
    hover_at(parsed.syntax(), offset).map(|h| h.content)
}

fn completion_labels(source: &str, offset: usize) -> Vec<String> {
    let parsed = parse(source);
    completion_at(parsed.syntax(), offset)
        .into_iter()
        .map(|item| item.label)
        .collect()
}

fn pos(line: usize, character: usize) -> Position {
    Position { line, character }
}

// ── positions ─────────────────────────────────────────────────────────────────

#[test]
fn offset_to_position_start_of_file() {
    assert_eq!(offset_to_position("hello", 0), pos(0, 0));
}

#[test]
fn offset_to_position_mid_line() {
    assert_eq!(offset_to_position("hello world", 6), pos(0, 6));
}

#[test]
fn offset_to_position_after_newline() {
    assert_eq!(offset_to_position("hello\nworld", 6), pos(1, 0));
}

#[test]
fn offset_to_position_second_line_mid() {
    assert_eq!(offset_to_position("hello\nworld", 8), pos(1, 2));
}

#[test]
fn offset_to_position_clamps_past_end() {
    assert_eq!(offset_to_position("ab\ncd", 99), pos(1, 2));
}

#[test]
fn position_to_offset_start() {
    assert_eq!(position_to_offset("hello", pos(0, 0)), 0);
}

#[test]
fn position_to_offset_mid_line() {
    assert_eq!(position_to_offset("hello world", pos(0, 6)), 6);
}

#[test]
fn position_to_offset_second_line() {
    assert_eq!(position_to_offset("hello\nworld", pos(1, 2)), 8);
}

#[test]
fn position_to_offset_clamps_to_line_end() {
    assert_eq!(position_to_offset("ab\ncd", pos(0, 10)), 2);
    assert_eq!(position_to_offset("ab\ncd", pos(5, 0)), 5);
}

#[test]
fn position_round_trips_through_offset() {
    let source = "stage build {}\nstage test {}";
    for offset in [0usize, 5, 9, 15, 22] {
        let p = offset_to_position(source, offset);
        assert_eq!(
            position_to_offset(source, p),
            offset,
            "round-trip failed at offset {offset}"
        );
    }
}

// ── tokens ────────────────────────────────────────────────────────────────────

#[test]
fn token_at_returns_token_at_offset() {
    let source = "workflow w { stage foo {} }";
    let parsed = parse(source);
    let located = token_at(parsed.syntax(), offset_of(source, "foo")).expect("expected token at 'foo'");
    assert_eq!(located.token.text, "foo");
}

#[test]
fn token_at_boundary_prefers_non_trivia() {
    let source = "workflow w { stage foo {} }";
    let parsed = parse(source);
    let foo_offset = offset_of(source, "foo");
    let located = token_at(parsed.syntax(), foo_offset).expect("expected token at boundary");
    assert_eq!(located.token.text, "foo");
    let before = token_at(parsed.syntax(), foo_offset - 1).expect("expected token before");
    assert!(!before.token.text.is_empty());
}

// ── hover ─────────────────────────────────────────────────────────────────────

#[test]
fn hover_workflow_keyword() {
    let src = "workflow ci {}";
    let text = hover_text(src, 0).expect("expected hover on 'workflow'");
    assert!(text.contains("workflow"), "hover: {text}");
}

#[test]
fn hover_stage_keyword() {
    let src = "workflow w { stage foo {} }";
    let text = hover_text(src, offset_of(src, "stage")).expect("expected hover on 'stage'");
    assert_eq!(text, "**stage** — groups jobs and templates");
}

#[test]
fn hover_job_keyword() {
    let src = "workflow w { stage s { job foo {} } }";
    let text = hover_text(src, offset_of(src, "job")).expect("expected hover on 'job'");
    assert!(text.contains("job"), "hover: {text}");
}

#[test]
fn hover_template_keyword() {
    let src = "workflow w { stage s { template t [] } }";
    let text = hover_text(src, offset_of(src, "template")).expect("expected hover on 'template'");
    assert!(text.contains("template"), "hover: {text}");
}

#[test]
fn hover_workflow_name_ident() {
    let src = "workflow myWorkflow {}";
    let text = hover_text(src, offset_of(src, "myWorkflow")).expect("expected hover on workflow name");
    assert_eq!(text, "workflow `myWorkflow`");
}

#[test]
fn hover_stage_name_ident() {
    let src = "workflow w { stage myStage {} }";
    let text = hover_text(src, offset_of(src, "myStage")).expect("expected hover on stage name");
    assert!(text.contains("myStage"), "hover: {text}");
}

#[test]
fn hover_job_name_ident() {
    let src = "workflow w { stage s { job myJob {} } }";
    let text = hover_text(src, offset_of(src, "myJob")).expect("expected hover on job name");
    assert!(text.contains("myJob"), "hover: {text}");
}

#[test]
fn hover_template_name_ident() {
    let src = "workflow w { stage s { template myTmpl [] } }";
    let text = hover_text(src, offset_of(src, "myTmpl")).expect("expected hover on template name");
    assert!(text.contains("myTmpl"), "hover: {text}");
}

#[test]
fn hover_inherit_attr_key() {
    let src = "workflow w { stage s { template t [] job j ( inherit = t ) [] } }";
    let text = hover_text(src, offset_of(src, "inherit")).expect("expected hover on 'inherit' key");
    assert!(text.contains("inherit"), "hover: {text}");
}

#[test]
fn hover_inherit_bare_value() {
    let src = "workflow w { stage s { template tmplA [] job j ( inherit = tmplA ) [] } }";
    let text = hover_text(src, nth_offset(src, "tmplA", 2)).expect("expected hover on inherit value");
    assert_eq!(text, "inherits steps from template `tmplA`");
}

#[test]
fn hover_opening_brace_returns_none() {
    let src = "workflow w { stage s {} }";
    assert!(
        hover_text(src, offset_of(src, "{")).is_none(),
        "expected no hover on '{{'"
    );
}

#[test]
fn hover_range_covers_the_token() {
    let src = "workflow w { stage s {} }";
    let parsed = parse(src);
    let h = hover_at(parsed.syntax(), offset_of(src, "stage") + 2).expect("hover");
    assert_eq!((h.start, h.end), (13, 18));
}

// ── completion ────────────────────────────────────────────────────────────────

#[test]
fn completion_toplevel_offers_workflow() {
    // A token at the root level triggers top-level keywords: only `workflow` is valid there.
    let src = "x";
    let labels = completion_labels(src, 0);
    assert!(labels.contains(&"workflow".to_owned()), "labels: {labels:?}");
}

#[test]
fn completion_toplevel_items_are_keyword_kind() {
    let src = "x";
    let parsed = parse(src);
    let items = completion_at(parsed.syntax(), 0);
    assert!(items.iter().all(|i| i.kind == CompletionKind::Keyword));
}

#[test]
fn completion_workflow_body_offers_use_stage_template() {
    // A token inside a workflow body triggers workflow-body keywords.
    let src = "workflow w { x }";
    let labels = completion_labels(src, offset_of(src, "x"));
    assert!(labels.contains(&"use".to_owned()), "labels: {labels:?}");
    assert!(labels.contains(&"stage".to_owned()), "labels: {labels:?}");
    assert!(labels.contains(&"template".to_owned()), "labels: {labels:?}");
}

#[test]
fn completion_stage_body_offers_job_and_template() {
    // An unknown token inside a stage body triggers stage-body keywords.
    let src = "workflow w { stage s { x } }";
    let labels = completion_labels(src, offset_of(src, "x"));
    assert!(labels.contains(&"job".to_owned()), "labels: {labels:?}");
    assert!(labels.contains(&"template".to_owned()), "labels: {labels:?}");
}

#[test]
fn completion_inherit_value_suggests_local_templates() {
    // Cursor on the inherit value token: should list stage-local templates.
    let src = "workflow w { stage s { template tmplA [] job j ( inherit = tmplA ) [] } }";
    let labels = completion_labels(src, nth_offset(src, "tmplA", 2));
    assert!(labels.contains(&"tmplA".to_owned()), "labels: {labels:?}");
}

#[test]
fn completion_dependencies_suggests_stage_job_pairs() {
    // Cursor inside a dependency ref list: should offer `stage.job` completions.
    let src = "workflow w { stage build { job compile {} } stage test { job unit ( dependencies = [build.compile] ) {} } }";
    let labels = completion_labels(src, offset_of(src, "build.compile"));
    assert!(labels.contains(&"build.compile".to_owned()), "labels: {labels:?}");
}

#[test]
fn completion_job_attr_key_offers_all_job_fields() {
    // Cursor on an attr key inside a job: should offer all job attribute names.
    let src = "workflow w { stage s { job j ( inherit = t ) {} } }";
    let labels = completion_labels(src, offset_of(src, "inherit"));
    assert!(labels.contains(&"inherit".to_owned()), "labels: {labels:?}");
    assert!(labels.contains(&"dependencies".to_owned()), "labels: {labels:?}");
    assert!(labels.contains(&"container".to_owned()), "labels: {labels:?}");
}

#[test]
fn completion_inside_job_body_offers_nothing() {
    let src = "workflow w { stage s { job j [ step a { echo } ] } }";
    let labels = completion_labels(src, offset_of(src, "echo"));
    assert!(labels.is_empty(), "labels: {labels:?}");
}

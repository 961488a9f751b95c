//! Tests of building a workflow into a GitLab CI pipeline.

use cianity::build::{render_path_to_string, render_to_string, run, Target};
use cianity::lower::SourceFile;

fn render(src: &str) -> String {
    render_to_string(src, Target::Gitlab).unwrap_or_else(|e| panic!("build failed: {e}"))
}

// ── error cases ───────────────────────────────────────────────────────────────

#[test]
fn build_fails_on_parse_errors() {
    let err = render_to_string("stage {", Target::Gitlab)
        .expect_err("a file with parse errors should not produce output");
    assert!(err.contains("parse errors"), "unexpected error message: {err}");
}

#[test]
fn build_fails_on_unknown_job_attr() {
    let err = render_to_string(
        "workflow ci { stage build { job compile (foo = bar) { cargo build } } }",
        Target::Gitlab,
    )
    .expect_err("a file with an unknown job attr should not produce output");
    assert!(err.contains("validation errors"), "unexpected error message: {err}");
}

#[test]
fn build_fails_on_unknown_workflow_attr() {
    let err = render_to_string(
        "workflow ci (foo = bar) { stage build { job compile { cargo build } } }",
        Target::Gitlab,
    )
    .expect_err("a file with an unknown workflow attr should not produce output");
    assert!(err.contains("validation errors"), "unexpected error message: {err}");
}

// ── pipelines ─────────────────────────────────────────────────────────────────

#[test]
fn build_simple_stage() {
    let yaml = render("workflow ci { stage build { job compile { cargo build } } }");
    assert_eq!(
        yaml,
        "stages:\n  - build\n\ncompile:\n  stage: build\n  dependencies: []\n  script:\n    - cargo build\n"
    );
}

#[test]
fn build_multiline_job_uses_block_scalar() {
    let yaml = render("workflow ci { stage build { job compile {\n    cargo build\n    cargo test\n} } }");
    assert!(
        yaml.contains("  script:\n    - |\n      cargo build\n      cargo test\n"),
        "yaml: {yaml}"
    );
}

#[test]
fn build_template_steps_and_override() {
    let yaml = render(
        "workflow ci { stage test { template base [ step setup { echo setup } step run { cargo test } ] \
         job smoke ( inherit = base ) [ step run { cargo test -- smoke } steps ] } }",
    );
    assert!(
        yaml.contains("  script:\n    - cargo test -- smoke\n    - echo setup\n"),
        "yaml: {yaml}"
    );
}

#[test]
fn build_template_image_and_dependencies() {
    let yaml = render(
        "workflow ci (strategy = reviews) { stage build { job fetch { cargo fetch } } stage test { \
         template base ( image = rust:1.80, dependencies = [ build.fetch ] ) [ step run { cargo test } ] \
         job unit ( inherit = base ) [ steps ] } }",
    );
    assert!(yaml.contains("unit:\n  stage: test\n  image: \"rust:1.80\"\n"), "yaml: {yaml}");
    assert!(yaml.contains("  needs:\n    - job: fetch\n"), "yaml: {yaml}");
    assert!(yaml.contains("  rules:\n    - if: $CI_MERGE_REQUEST_IID\n"), "yaml: {yaml}");
}

#[test]
fn build_name_conflict_qualifies_names() {
    let yaml = render(
        "workflow ci { stage build { job check { cargo check } } stage test { job check ( dependencies = [ build.check ] ) { cargo test } } }",
    );
    assert!(yaml.contains("build.check:\n  stage: build\n"), "yaml: {yaml}");
    assert!(yaml.contains("test.check:\n  stage: test\n  needs:\n    - job: build.check\n"), "yaml: {yaml}");
}

#[test]
fn build_job_without_script_gets_empty_command() {
    let yaml = render("workflow ci { stage build { job idle [ ] } }");
    assert!(yaml.contains("  script:\n    - \"\"\n"), "yaml: {yaml}");
}

#[test]
fn build_strategy_default_branch_and_reviews() {
    let yaml = render("workflow ci (strategy = default_branch_and_reviews) { stage b { job j { echo } } }");
    assert!(
        yaml.contains("  rules:\n    - if: $CI_COMMIT_BRANCH == $CI_DEFAULT_BRANCH\n    - if: $CI_MERGE_REQUEST_IID\n"),
        "yaml: {yaml}"
    );
}

#[test]
fn build_cross_file_inherit() {
    let shared = "workflow shared { template base [ step lint { cargo clippy } ] }";
    let sources = vec![SourceFile { path: "ci/shared.ci".to_owned(), text: Some(shared.to_owned()) }];
    let root = "workflow ci { use shared ( path = ./shared.ci ) stage test { job lint ( inherit = shared/base ) [ steps ] } }";
    let yaml = render_path_to_string("ci/workflow.ci", root, &sources, Target::Gitlab)
        .unwrap_or_else(|e| panic!("build failed: {e}"));
    assert!(yaml.contains("  script:\n    - cargo clippy\n"), "yaml: {yaml}");
}

#[test]
fn build_cross_file_missing_template_fails() {
    let shared = "workflow shared { template base [ step lint { cargo clippy } ] }";
    let sources = vec![SourceFile { path: "shared.ci".to_owned(), text: Some(shared.to_owned()) }];
    let root = "workflow ci { use shared ( path = ./shared.ci ) stage test { job lint ( inherit = shared/other ) [ steps ] } }";
    let err = render_path_to_string("workflow.ci", root, &sources, Target::Gitlab)
        .expect_err("missing template");
    assert_eq!(err, "top-level template `other` not found in import `shared`");
}

#[test]
fn run_writes_beside_the_file() {
    let (out, yaml) = run("ci/workflow.ci", "workflow ci { stage b { job j { echo } } }", &Vec::new(), Target::Gitlab, None)
        .expect("build");
    assert_eq!(out, "ci/.gitlab-ci.yml");
    assert!(yaml.starts_with("stages:\n  - b\n"));
    let (out, _) = run("workflow.ci", "workflow ci { stage b { job j { echo } } }", &Vec::new(), Target::Gitlab, Some("out.yml"))
        .expect("build");
    assert_eq!(out, "out.yml");
}

#[test]
fn run_names_the_file_on_failure() {
    let err = run("bad.ci", "stage {", &Vec::new(), Target::Gitlab, None).expect_err("fails");
    assert_eq!(err, "cannot build bad.ci: file has parse errors");
}

#[test]
fn a_job_without_dependencies_downloads_no_artifacts() {
    let yaml = render("workflow ci { stage build { job a { echo a } job b (dependencies = [build.a]) { echo b } } }");
    assert!(yaml.contains("a:\n  stage: build\n  dependencies: []\n"), "yaml: {yaml}");
    assert!(yaml.contains("b:\n  stage: build\n  needs:\n    - job: a\n"), "yaml: {yaml}");
}

#[test]
fn render_parsed_reports_validation_errors() {
    let source = "workflow ci { stage build { job compile (foo = bar) { cargo build } } }";
    let parsed = cianity::parser::parse(source);
    let err = cianity::build::render_parsed(&parsed, None, &Vec::new()).expect_err("validation errors");
    assert_eq!(err, "file has validation errors");
}

//! Tests of checking workflow files, one at a time and as a workspace.

use cianity::check::{diagnostics, imports_table, run};
use cianity::lower::SourceFile;
use cianity::validation::Severity;
use cianity::workspace::referenced_files;

// ── helpers ───────────────────────────────────────────────────────────────────

/// The files of a test: the one checked first, then the others it may import.
fn sources(files: &[(&str, &str)]) -> Vec<SourceFile> {
    files
        .iter()
        .map(|(path, text)| SourceFile { path: (*path).to_owned(), text: Some((*text).to_owned()) })
        .collect()
}

fn check_file(path: &str, files: &[(&str, &str)]) -> Result<(), String> {
    let all = sources(files);
    let text = all
        .iter()
        .find(|f| f.path == path)
        .and_then(|f| f.text.clone())
        .unwrap_or_else(|| panic!("no file {path}"));
    let (diags, result) = run(path, &text, &all);
    result.map_err(|e| format!("{e}: {diags:?}"))
}

fn assert_check_passes(src: &str) {
    assert_check_passes_with(src, &[]);
}

fn assert_check_passes_with(src: &str, others: &[(&str, &str)]) {
    let mut files = vec![("workflow.ci", src)];
    files.extend_from_slice(others);
    if let Err(e) = check_file("workflow.ci", &files) {
        panic!("should pass check: {e}");
    }
}

fn assert_check_fails(src: &str) {
    assert_check_fails_with(src, &[]);
}

fn assert_check_fails_with(src: &str, others: &[(&str, &str)]) {
    let mut files = vec![("workflow.ci", src)];
    files.extend_from_slice(others);
    assert!(check_file("workflow.ci", &files).is_err(), "should fail check but passed");
}

/// Messages of all error-level diagnostics of a file.
fn error_messages(src: &str) -> Vec<String> {
    let files = sources(&[("workflow.ci", src)]);
    diagnostics("workflow.ci", src, &files)
        .into_iter()
        .filter(|d| d.severity == Severity::Error)
        .map(|d| d.message)
        .collect()
}

/// Check the root of a workspace, then every file it refers to.
fn run_workspace_check(files: &[(&str, &str)]) -> Result<(), String> {
    let mut had_error = check_file("workflow.ci", files).is_err();
    let all = sources(files);
    let refs = referenced_files(&imports_table(&all), "workflow.ci")?;
    for path in &refs {
        if check_file(path, files).is_err() {
            had_error = true;
        }
    }
    if had_error {
        return Err("workspace had errors".to_owned());
    }
    Ok(())
}

fn assert_workspace_passes(files: &[(&str, &str)]) {
    if let Err(e) = run_workspace_check(files) {
        panic!("workspace should pass check: {e}");
    }
}

fn assert_workspace_fails(files: &[(&str, &str)]) {
    assert!(run_workspace_check(files).is_err(), "workspace should fail check but passed");
}

const SHARED: &str = "workflow shared {
    template base [
        step lint { cargo clippy }
    ]

    stage build {
        template base [
            step compile { cargo build }
        ]
    }
}
";

// ── valid files ───────────────────────────────────────────────────────────────

#[test]
fn valid_simple_stage() {
    assert_check_passes("workflow ci {\n    stage build {\n        job compile { cargo build }\n    }\n}\n");
}

#[test]
fn valid_multiline_job() {
    assert_check_passes(
        "workflow ci {
    stage build {
        template base [
            step fetch { cargo fetch }
        ]

        job compile ( image = rust:latest, inherit = base ) [
            step fetch,
            step build {
                cargo build
                cargo test --no-run
            }
        ]
    }
}
",
    );
}

#[test]
fn valid_template_and_inherit() {
    assert_check_passes(
        "workflow ci {
    stage test {
        template base [
            step setup { echo setup }
            step run { cargo test }
        ]

        job unit ( inherit = base ) [ steps, ]

        job smoke ( inherit = base ) [
            step setup { echo 'smoke setup' }
            steps,
        ]
    }
}
",
    );
}

#[test]
fn valid_workflow_import() {
    assert_check_passes_with(
        "workflow ci {
    use {
        workflow(location = ./shared.ci, name = shared)
    }

    stage build {
        job compile { cargo build }
    }
}
",
        &[("shared.ci", SHARED)],
    );
}

#[test]
fn valid_cross_file_inherit() {
    assert_check_passes_with(
        "workflow ci {
    use shared ( path = ./shared.ci )

    stage test {
        job lint ( inherit = shared/base ) [ steps, ]
    }
}
",
        &[("shared.ci", SHARED)],
    );
}

#[test]
fn valid_top_level_template() {
    assert_check_passes(
        "workflow ci

template rust ( image = rust:1.80 ) [
    step test { cargo test }
]

stage test {
    job unit ( inherit = rust ) [ steps, ]
}
",
    );
}

#[test]
fn valid_template_inline_body() {
    assert_check_passes(
        "workflow ci {
    template slim ( image = rust:slim )

    stage build {
        job compile ( inherit = slim ) { cargo build }
    }
}
",
    );
}

#[test]
fn valid_cross_file_stage_template() {
    assert_check_passes_with(
        "workflow ci {
    use shared ( path = ./shared.ci )

    stage build {
        job compile ( inherit = shared/build.base ) [ steps, ]
    }
}
",
        &[("shared.ci", SHARED)],
    );
}

#[test]
fn valid_variables_basic() {
    assert_check_passes(
        "workflow ci {
    stage build {
        job compile ( variables = RELEASE ) { cargo build }
    }
}
",
    );
}

#[test]
fn valid_variables_from_template() {
    assert_check_passes(
        "workflow ci {
    stage build {
        template base ( variables = RELEASE ) [
            step build { cargo build }
        ]

        job compile ( inherit = base ) [ steps, ]
    }
}
",
    );
}

#[test]
fn valid_variables_unset() {
    assert_check_passes(
        "workflow ci {
    stage build {
        template base ( variables = RELEASE ) [
            step build { cargo build }
        ]

        job compile ( inherit = base, variables = DEBUG ) [ steps, ]
    }
}
",
    );
}

#[test]
fn valid_cross_file_template_on_template() {
    assert_check_passes_with(
        "workflow ci {
    use shared ( path = ./shared.ci )

    template local ( inherit = shared/base, image = rust:1.80 ) [
        steps,
        step test { cargo test }
    ]

    stage test {
        job unit ( inherit = local ) [ steps, ]
    }
}
",
        &[("shared.ci", SHARED)],
    );
}

#[test]
fn valid_dependency_same_stage() {
    assert_check_passes(
        "workflow ci {
    stage build {
        job fetch { cargo fetch }
        job compile ( dependencies = [ build.fetch ] ) { cargo build }
    }
}
",
    );
}

// ── invalid files ─────────────────────────────────────────────────────────────

#[test]
fn invalid_duplicate_stage_names() {
    assert_check_fails(
        "workflow ci {
    stage build { job a { echo a } }
    stage build { job b { echo b } }
}
",
    );
}

#[test]
fn invalid_parse_error_missing_stage_name() {
    assert_check_fails("workflow ci {\n    stage {\n        job a { echo a }\n    }\n}\n");
}

#[test]
fn invalid_steps_without_inherit() {
    assert_check_fails("workflow ci {\n    stage build {\n        job compile [ steps, ]\n    }\n}\n");
}

#[test]
fn invalid_workflow_missing_location() {
    assert_check_fails(
        "workflow ci {
    use {
        workflow(name = shared)
    }

    stage build { job compile { cargo build } }
}
",
    );
}

#[test]
fn invalid_inherit_no_use_entry() {
    assert_check_fails(
        "workflow ci {
    stage test {
        job lint ( inherit = shared/base ) [ steps, ]
    }
}
",
    );
}

#[test]
fn invalid_inherit_use_file_missing() {
    assert_check_fails(
        "workflow ci {
    use shared ( path = ./missing.ci )

    stage test {
        job lint ( inherit = shared/base ) [ steps, ]
    }
}
",
    );
}

#[test]
fn invalid_inherit_template_not_in_file() {
    assert_check_fails_with(
        "workflow ci {
    use shared ( path = ./shared.ci )

    stage test {
        job lint ( inherit = shared/nothing ) [ steps, ]
    }
}
",
        &[("shared.ci", SHARED)],
    );
}

#[test]
fn invalid_inherit_stage_template_not_found() {
    assert_check_fails_with(
        "workflow ci {
    use shared ( path = ./shared.ci )

    stage test {
        job lint ( inherit = shared/build.nothing ) [ steps, ]
    }
}
",
        &[("shared.ci", SHARED)],
    );
}

#[test]
fn invalid_inherit_cross_file_missing_in_list() {
    assert_check_fails_with(
        "workflow ci {
    use shared ( path = ./shared.ci )

    stage test {
        job lint ( inherit = [ shared/base, shared/nothing ] ) [ steps, ]
    }
}
",
        &[("shared.ci", SHARED)],
    );
}

#[test]
fn invalid_inherit_cross_file_missing_on_template() {
    assert_check_fails_with(
        "workflow ci {
    use shared ( path = ./shared.ci )

    template local ( inherit = shared/nothing ) [ steps, ]

    stage test {
        job unit { cargo test }
    }
}
",
        &[("shared.ci", SHARED)],
    );
}

#[test]
fn invalid_template_step_reference_unknown() {
    assert_check_fails(
        "workflow ci {
    template base [
        step build { cargo build }
    ]

    template derived ( inherit = base ) [
        step missing,
    ]

    stage test {
        job unit { cargo test }
    }
}
",
    );
}

#[test]
fn invalid_template_steps_without_inherit() {
    assert_check_fails(
        "workflow ci {
    template base [ steps, ]

    stage test {
        job unit { cargo test }
    }
}
",
    );
}

#[test]
fn invalid_step_reference_unknown() {
    assert_check_fails(
        "workflow ci {
    stage test {
        template base [
            step build { cargo build }
        ]

        job unit ( inherit = base ) [
            step missing,
        ]
    }
}
",
    );
}

#[test]
fn invalid_step_reference_without_inherit() {
    assert_check_fails(
        "workflow ci {
    stage test {
        job unit [
            step missing,
        ]
    }
}
",
    );
}

#[test]
fn invalid_inherit_unknown_template_inline_body() {
    assert_check_fails(
        "workflow ci {
    stage build {
        job compile ( inherit = nothing ) { cargo build }
    }
}
",
    );
}

#[test]
fn invalid_inherit_unknown_template() {
    assert_check_fails(
        "workflow ci {
    stage build {
        template base ( inherit = nothing ) [
            step build { cargo build }
        ]

        job compile ( inherit = base ) [ steps, ]
    }
}
",
    );
}

#[test]
fn invalid_inherit_unknown_stage() {
    assert_check_fails(
        "workflow ci {
    stage build {
        template base ( inherit = nowhere.base ) [
            step build { cargo build }
        ]

        job compile ( inherit = base ) [ steps, ]
    }
}
",
    );
}

#[test]
fn invalid_dependency_later_stage() {
    assert_check_fails(
        "workflow ci {
    stage build {
        job compile ( dependencies = [ test.unit ] ) { cargo build }
    }

    stage test {
        job unit { cargo test }
    }
}
",
    );
}

#[test]
fn invalid_dependency_later_stage_from_template() {
    assert_check_fails(
        "workflow ci {
    template after_tests ( dependencies = [ test.unit ] )

    stage build {
        job compile ( inherit = after_tests ) { cargo build }
    }

    stage test {
        job unit { cargo test }
    }
}
",
    );
}

#[test]
fn invalid_dependency_unknown_stage() {
    assert_check_fails(
        "workflow ci {
    stage test {
        job unit ( dependencies = [ prepare.fetch ] ) { cargo test }
    }
}
",
    );
}

#[test]
fn invalid_dependency_unknown_job() {
    assert_check_fails(
        "workflow ci {
    stage build {
        job compile { cargo build }
    }

    stage test {
        job unit ( dependencies = [ build.compiel ] ) { cargo test }
    }
}
",
    );
}

#[test]
fn invalid_dependency_missing_stage_prefix() {
    assert_check_fails(
        "workflow ci {
    stage build {
        job compile { cargo build }
    }

    stage test {
        job unit ( dependencies = [ compile ] ) { cargo test }
    }
}
",
    );
}

#[test]
fn invalid_dependencies_not_a_list() {
    assert_check_fails(
        "workflow ci {
    stage build {
        job compile { cargo build }
    }

    stage test {
        job unit ( dependencies = build.compile ) { cargo test }
    }
}
",
    );
}

#[test]
fn invalid_dependency_on_self() {
    assert_check_fails(
        "workflow ci {
    stage build {
        job compile ( dependencies = [ build.compile ] ) { cargo build }
    }
}
",
    );
}

#[test]
fn invalid_dependency_cycle() {
    assert_check_fails(
        "workflow ci {
    stage build {
        job a ( dependencies = [ build.b ] ) { echo a }
        job b ( dependencies = [ build.a ] ) { echo b }
    }
}
",
    );
}

#[test]
fn invalid_import_loop_self() {
    assert_check_fails("workflow ci {\n    use me ( path = ./workflow.ci )\n}\n");
}

// ── reporting all errors at once ──────────────────────────────────────────────

#[test]
fn reports_all_errors_in_one_run() {
    let messages = error_messages(
        "workflow ci {
    stage build {
        job compile ( foo = bar ) { cargo build }
        job lint ( dependencies = [ compile, build.compile.extra, build.compiel, test.unit ] ) { cargo clippy }
        job docs ( inherit = missing/base ) [ steps, ]
    }

    stage test {
        job unit { cargo test }
    }
}
",
    );
    let expected = [
        "unknown attribute `foo` on job",
        "dependency `compile` must be written as `stage.job`",
        "dependency `build.compile.extra` must be written as `stage.job`",
        "inherit references import `missing`, but no such import exists",
        "job `build.lint` depends on `build.compiel`, but stage `build` has no job `compiel`",
        "job `build.lint` depends on `test.unit` in later stage `test`",
    ];
    for needle in expected {
        let count = messages.iter().filter(|m| m.contains(needle)).count();
        assert_eq!(count, 1, "expected exactly one error containing {needle:?}, got: {messages:#?}");
    }
    assert_eq!(messages.len(), expected.len(), "unexpected extra errors: {messages:#?}");
}

#[test]
fn parse_errors_suppress_dependency_errors() {
    // Error recovery can drop jobs from the tree, so dependency checks on a
    // file with parse errors could report jobs as missing when they aren't.
    let messages = error_messages(
        "workflow ci {
    stage build {
        job compile ( dependencies = [ build.missing ] ) { cargo build }
        job = broken
    }
}
",
    );
    assert!(!messages.is_empty(), "expected parse errors, got none");
    assert!(
        messages.iter().all(|m| !m.contains("depends on")),
        "dependency errors should not be reported alongside parse errors: {messages:#?}"
    );
}

#[test]
fn missing_import_is_reported_once_with_its_path() {
    let messages = error_messages("workflow ci {\n    use gone ( path = ./gone.ci )\n}\n");
    assert_eq!(messages, vec!["import `gone` references `gone.ci`, which does not exist".to_owned()]);
}

#[test]
fn import_loop_is_reported_as_a_chain() {
    let messages = error_messages("workflow ci {\n    use me ( path = ./workflow.ci )\n}\n");
    assert_eq!(messages, vec!["import loop: workflow.ci -> workflow.ci".to_owned()]);
}

// ── workspace check ───────────────────────────────────────────────────────────

#[test]
fn workspace_valid_root_and_referenced() {
    assert_workspace_passes(&[
        ("workflow.ci", "workflow ci {\n    use shared ( path = ./ci/shared.ci )\n\n    stage test {\n        job lint ( inherit = shared/base ) [ steps, ]\n    }\n}\n"),
        ("ci/shared.ci", SHARED),
    ]);
}

#[test]
fn workspace_invalid_deep_reference() {
    assert_workspace_fails(&[
        ("workflow.ci", "workflow ci {\n    use a ( path = ./a.ci )\n}\n"),
        ("a.ci", "workflow a {\n    use b ( path = ./b.ci )\n}\n"),
        ("b.ci", "workflow b {\n    stage x { job j { echo } }\n    stage x { job k { echo } }\n}\n"),
    ]);
}

#[test]
fn workspace_import_loop_is_an_error() {
    assert_workspace_fails(&[
        ("workflow.ci", "workflow ci {\n    use other ( path = ./other.ci )\n}\n"),
        ("other.ci", "workflow other {\n    use root ( path = ./workflow.ci )\n}\n"),
    ]);
}

#[test]
fn workspace_invalid_referenced_parse_error() {
    assert_workspace_fails(&[
        ("workflow.ci", "workflow ci {\n    use a ( path = ./a.ci )\n}\n"),
        ("a.ci", "workflow a {\n    stage {\n}\n"),
    ]);
}

#[test]
fn workspace_invalid_referenced_validation() {
    assert_workspace_fails(&[
        ("workflow.ci", "workflow ci {\n    use a ( path = ./a.ci )\n}\n"),
        ("a.ci", "workflow a {\n    stage build {\n        job compile ( foo = bar ) { cargo build }\n    }\n}\n"),
    ]);
}

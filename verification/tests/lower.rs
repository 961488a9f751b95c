//! Tests of lowering a parsed file into a workflow.

use cianity::ast::Root;
use cianity::ir::Workflow;
use cianity::lower::{ErrorSite, SourceFile, lower, lower_partial, lower_with_path, lower_with_path_partial};
use cianity::parser::parse;

fn lowered(src: &str) -> Workflow {
    let result = parse(src);
    assert!(result.errors().is_empty(), "unexpected parse errors: {:?}", result.errors());
    let root = Root::cast(result.syntax()).expect("Root node");
    lower(&root)
}

#[test]
fn return_annotation_gives_artifacts_and_env() {
    let w = lowered("workflow w { stage build { job compile { cargo build } -> [dist/, $RELEASE, **/*.so] } }");
    let job = &w.stages[0].jobs[0];
    assert_eq!(job.artifacts, vec!["dist/".to_string(), "**/*.so".to_string()]);
    assert_eq!(job.env, vec!["RELEASE".to_string()]);
}

#[test]
fn a_job_adds_its_artifacts_to_its_templates() {
    let w = lowered(
        "workflow w { stage build { template base [ step build { cargo build } ] -> [dist/, $A] job compile (inherit = base) [ steps, ] -> [target/release/app] } }",
    );
    let job = &w.stages[0].jobs[0];
    assert_eq!(job.artifacts, vec!["dist/".to_string(), "target/release/app".to_string()]);
    assert_eq!(job.env, vec!["A".to_string()], "the template's env when the job exports none");
    assert_eq!(job.script, vec!["cargo build".to_string()]);
}

#[test]
fn a_job_that_exports_env_replaces_its_templates() {
    let w = lowered(
        "workflow w { stage build { template base [ step build { cargo build } ] -> [$A] job compile (inherit = base) [ steps, ] -> [$B] } }",
    );
    let job = &w.stages[0].jobs[0];
    assert!(job.artifacts.is_empty());
    assert_eq!(job.env, vec!["B".to_string()]);
}

#[test]
fn a_job_without_annotation_has_no_artifacts() {
    let w = lowered("workflow w { stage build { job compile { cargo build } } }");
    let job = &w.stages[0].jobs[0];
    assert!(job.artifacts.is_empty());
    assert!(job.env.is_empty());
}

#[test]
fn lower_with_path_succeeds_when_nothing_is_inherited() {
    let result = parse("workflow ci { stage b { job j { echo hi } } }");
    let root = Root::cast(result.syntax()).expect("Root node");
    let w = lower_with_path(&root, "ci/workflow.ci", &Vec::new()).expect("nothing to resolve");
    assert_eq!(w.stages.len(), 1);
    assert_eq!(w.stages[0].jobs[0].script, vec!["echo hi".to_string()]);
}

#[test]
fn lower_with_path_reports_a_missing_import_once() {
    let src = "workflow ci { stage b { job j (inherit = lib/base) [ steps ] job k (inherit = lib/base) [ steps ] } }";
    let result = parse(src);
    let root = Root::cast(result.syntax()).expect("Root node");
    let (w, errors) = lower_with_path_partial(&root, "workflow.ci", &Vec::new());
    assert_eq!(w.stages[0].jobs.len(), 2);
    assert_eq!(errors.len(), 1, "the same reference is reported once");
    assert_eq!(errors[0].message, "inherit references import `lib`, but no such import exists in the `use` block");
    let err = lower_with_path(&root, "workflow.ci", &Vec::new()).expect_err("unresolved import");
    assert_eq!(err, errors[0].message);
}

#[test]
fn a_job_attr_beats_its_template_and_steps_are_inlined() {
    let w = lowered(
        "workflow w { stage s { template t ( image = a ) [ step x { echo } ] job j1 ( inherit = t ) [ steps ] job j2 ( inherit = t, image = b ) [ steps ] } }",
    );
    let jobs = &w.stages[0].jobs;
    assert_eq!(jobs.len(), 2);
    assert_eq!(jobs[0].image, Some("a".to_string()));
    assert_eq!(jobs[1].image, Some("b".to_string()));
    assert_eq!(jobs[0].script, vec!["echo".to_string()]);
    assert_eq!(jobs[1].script, vec!["echo".to_string()]);
}

#[test]
fn templates_of_an_inherit_list_merge_in_order() {
    let w = lowered("workflow w { stage s { template a ( image = x ) template b ( image = y ) job j ( inherit = [a, b] ) { echo } } }");
    let job = &w.stages[0].jobs[0];
    assert_eq!(job.image, Some("y".to_string()));
    assert_eq!(job.script, vec!["echo".to_string()]);
}

#[test]
fn lower_leaves_cross_file_references_unresolved() {
    let w = lowered("workflow w { stage s { job j ( inherit = up/base ) [ steps ] } }");
    let job = &w.stages[0].jobs[0];
    assert_eq!(job.name, "j");
    assert!(job.script.is_empty());
    assert_eq!(job.image, None);
}

#[test]
fn lower_partial_reports_an_undefined_step() {
    let result = parse("workflow w { stage s { template t [ step a { x } ] job j ( inherit = t ) [ step b ] } }");
    let root = Root::cast(result.syntax()).expect("Root node");
    let (w, errs) = lower_partial(&root);
    assert_eq!(errs.len(), 1);
    match &errs[0].site {
        ErrorSite::StepRef { stage, job, step } => {
            assert_eq!((stage.as_str(), job.as_str(), step.as_str()), ("s", "j", "b"));
        },
        _ => panic!("expected a step reference site"),
    }
    assert_eq!(errs[0].message, "job `s.j` uses step `b`, but no template it inherits defines it");
    assert!(w.stages[0].jobs[0].script.is_empty());
}

#[test]
fn circular_inheritance_reports_nothing() {
    let result = parse("workflow w { stage s { template t1 ( inherit = t2, image = a ) template t2 ( inherit = t1 ) job j ( inherit = t1 ) { echo } } }");
    let root = Root::cast(result.syntax()).expect("Root node");
    let (w, errs) = lower_partial(&root);
    assert!(errs.is_empty());
    assert_eq!(w.stages[0].jobs[0].image, Some("a".to_string()));
}

#[test]
fn a_missing_stage_template_in_an_import_is_reported_once() {
    let shared = "workflow shared { stage st { template other [ step a { x } ] } }";
    let sources = vec![SourceFile { path: "shared.ci".to_owned(), text: Some(shared.to_owned()) }];
    let src = "workflow ci { use imp ( path = ./shared.ci ) stage s { job a ( inherit = imp/st.t ) { x } job b ( inherit = imp/st.t ) { y } } }";
    let result = parse(src);
    let root = Root::cast(result.syntax()).expect("Root node");
    let (w, errs) = lower_with_path_partial(&root, "workflow.ci", &sources);
    assert_eq!(errs.len(), 1);
    match &errs[0].site {
        ErrorSite::InheritRef(r) => assert_eq!(r, "imp/st.t"),
        _ => panic!("expected the inherit reference as the site"),
    }
    assert_eq!(errs[0].message, "template `t` not found in stage `st` of import `imp`");
    assert_eq!(w.stages[0].jobs[0].script, vec!["x".to_string()]);
    assert_eq!(w.stages[0].jobs[1].script, vec!["y".to_string()]);
}

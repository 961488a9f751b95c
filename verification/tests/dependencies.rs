//! Tests of the dependency checks on a lowered workflow.

use cianity::ir::{Job, JobRef, Stage, Workflow, WorkflowStrategy, dependency_errors};

fn job(stage: &str, name: &str, needs: &[(&str, &str)]) -> Job {
    Job {
        name: name.to_string(),
        stage: stage.to_string(),
        image: None,
        script: Vec::new(),
        needs: needs
            .iter()
            .map(|(s, j)| JobRef { stage: s.to_string(), job: j.to_string() })
            .collect(),
        artifacts: Vec::new(),
        env: Vec::new(),
        variables: Vec::new(),
    }
}

fn workflow(stages: Vec<Stage>) -> Workflow {
    Workflow { stages, strategy: WorkflowStrategy::NoRules }
}

fn messages(w: &Workflow) -> Vec<String> {
    dependency_errors(w).into_iter().map(|e| e.message).collect()
}

#[test]
fn a_cycle_through_three_jobs_is_reported_once() {
    let w = workflow(vec![Stage {
        name: "build".to_string(),
        jobs: vec![
            job("build", "a", &[("build", "b")]),
            job("build", "b", &[("build", "c")]),
            job("build", "c", &[("build", "a")]),
        ],
    }]);
    let errors = dependency_errors(&w);
    assert_eq!(errors.len(), 1);
    assert_eq!(errors[0].stage, "build");
    assert_eq!(errors[0].job, "a");
    assert_eq!(errors[0].message, "dependency cycle in stage `build`: a -> b -> c -> a");
}

#[test]
fn a_chain_of_dependencies_is_no_cycle() {
    let w = workflow(vec![Stage {
        name: "build".to_string(),
        jobs: vec![
            job("build", "a", &[("build", "b")]),
            job("build", "b", &[("build", "c")]),
            job("build", "c", &[]),
        ],
    }]);
    assert!(messages(&w).is_empty());
}

#[test]
fn a_diamond_of_dependencies_is_no_cycle() {
    let w = workflow(vec![Stage {
        name: "build".to_string(),
        jobs: vec![
            job("build", "top", &[("build", "left"), ("build", "right")]),
            job("build", "left", &[("build", "bottom")]),
            job("build", "right", &[("build", "bottom")]),
            job("build", "bottom", &[]),
        ],
    }]);
    assert!(messages(&w).is_empty());
}

#[test]
fn a_self_dependency_is_reported_but_is_no_cycle() {
    let w = workflow(vec![Stage {
        name: "build".to_string(),
        jobs: vec![job("build", "a", &[("build", "a")])],
    }]);
    assert_eq!(messages(&w), vec!["job `build.a` depends on itself"]);
}

#[test]
fn cycles_are_reported_per_stage() {
    let w = workflow(vec![
        Stage {
            name: "build".to_string(),
            jobs: vec![job("build", "a", &[("build", "b")]), job("build", "b", &[("build", "a")])],
        },
        Stage {
            name: "test".to_string(),
            jobs: vec![job("test", "x", &[("build", "a")]), job("test", "y", &[("test", "x")])],
        },
    ]);
    assert_eq!(messages(&w), vec!["dependency cycle in stage `build`: a -> b -> a"]);
}

#[test]
fn a_two_job_cycle_is_reported_once_for_the_first_job() {
    let w = workflow(vec![Stage {
        name: "s".to_string(),
        jobs: vec![job("s", "a", &[("s", "b")]), job("s", "b", &[("s", "a")])],
    }]);
    let errors = dependency_errors(&w);
    assert_eq!(errors.len(), 1);
    assert_eq!(errors[0].stage, "s");
    assert_eq!(errors[0].job, "a");
    assert_eq!(errors[0].message, "dependency cycle in stage `s`: a -> b -> a");
}

#[test]
fn a_self_dependency_is_not_a_same_stage_dependency() {
    let own = job("s", "a", &[("s", "a")]);
    assert!(!own.has_same_stage_dependency());
    let other = job("s", "a", &[("s", "b")]);
    assert!(other.has_same_stage_dependency());
}

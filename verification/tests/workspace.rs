//! Tests of finding the workflow root and following imports between files.
//!
//! The files live in a small tree in memory, which the tests read the way
//! the command line reads the disk.

use std::collections::{BTreeMap, BTreeSet};
use std::path::Path;

use cianity::check::imports_table;
use cianity::lower::SourceFile;
use cianity::workspace::{self, DirProbe};

const BASE: &str = "/w";

/// Files and directories, by absolute path.
#[derive(Default)]
struct Tree {
    files: BTreeMap<String, String>,
    dirs: BTreeSet<String>,
}

impl Tree {
    fn new() -> Self {
        let mut t = Tree::default();
        t.mkdir("");
        t
    }

    fn abs(rel: &str) -> String {
        if rel.is_empty() {
            BASE.to_string()
        } else {
            format!("{BASE}/{rel}")
        }
    }

    fn mkdir(&mut self, rel: &str) -> String {
        let path = Self::abs(rel);
        for dir in Path::new(&path).ancestors() {
            self.dirs.insert(dir.display().to_string());
        }
        path
    }

    fn write(&mut self, rel: &str, content: &str) -> String {
        let path = Self::abs(rel);
        if let Some(parent) = Path::new(&path).parent() {
            for dir in parent.ancestors() {
                self.dirs.insert(dir.display().to_string());
            }
        }
        self.files.insert(path.clone(), content.to_string());
        path
    }

    fn touch(&mut self, rel: &str) -> String {
        self.write(rel, "")
    }

    fn probe(&self, dir: &str) -> DirProbe {
        DirProbe {
            dir: dir.to_string(),
            primary: self.files.contains_key(&format!("{dir}/workflow.ci")),
            hidden: self.files.contains_key(&format!("{dir}/.workflow.ci")),
        }
    }

    /// The directory `start` and each of its ancestors.
    fn chain(&self, start: &str) -> Vec<DirProbe> {
        Path::new(start)
            .ancestors()
            .map(|d| self.probe(&d.display().to_string()))
            .collect()
    }

    /// The file at `root` and every file reachable from it through imports.
    fn gather(&self, root: &str) -> Vec<SourceFile> {
        let mut sources = vec![SourceFile { path: root.to_string(), text: self.files.get(root).cloned() }];
        loop {
            let wanted = workspace::unknown_imports(&imports_table(&sources));
            let mut added = false;
            for target in wanted {
                if let Some(text) = self.files.get(&target) {
                    sources.push(SourceFile { path: target, text: Some(text.clone()) });
                    added = true;
                }
            }
            if !added {
                return sources;
            }
        }
    }

    fn referenced_files(&self, root: &str) -> Vec<String> {
        workspace::referenced_files(&imports_table(&self.gather(root)), root).unwrap()
    }

    /// Loops seen by `file`, rendered as `a.ci -> b.ci -> a.ci`.
    fn loops_from(&self, file: &str) -> Vec<String> {
        let prefix = format!("{BASE}/");
        workspace::import_loops(&imports_table(&self.gather(file)), file)
            .into_iter()
            .map(|chain| {
                chain
                    .iter()
                    .map(|p| p.strip_prefix(&prefix).unwrap_or(p).to_string())
                    .collect::<Vec<_>>()
                    .join(" -> ")
            })
            .collect()
    }

    /// Every loop among `files`, which should be reported by exactly one of them.
    fn all_loops(&self, files: &[String]) -> Vec<String> {
        files.iter().flat_map(|f| self.loops_from(f)).collect()
    }
}

// ── discover_from ─────────────────────────────────────────────────────────────

#[test]
fn discover_finds_workflow_ci_in_start_dir() {
    let mut tmp = Tree::new();
    let expected = tmp.touch("workflow.ci");
    let found = workspace::discover_from(BASE, &tmp.chain(BASE)).unwrap();
    assert_eq!(found.path, expected);
}

#[test]
fn discover_finds_hidden_workflow_ci_in_start_dir() {
    let mut tmp = Tree::new();
    let expected = tmp.touch(".workflow.ci");
    let found = workspace::discover_from(BASE, &tmp.chain(BASE)).unwrap();
    assert_eq!(found.path, expected);
}

#[test]
fn discover_prefers_workflow_ci_over_hidden() {
    let mut tmp = Tree::new();
    let expected = tmp.touch("workflow.ci");
    tmp.touch(".workflow.ci");
    let found = workspace::discover_from(BASE, &tmp.chain(BASE)).unwrap();
    assert_eq!(found.path, expected);
    assert!(found.ignored_hidden);
}

#[test]
fn discover_finds_workflow_ci_in_parent() {
    let mut tmp = Tree::new();
    let expected = tmp.touch("workflow.ci");
    let start = tmp.mkdir("child");
    let found = workspace::discover_from(&start, &tmp.chain(&start)).unwrap();
    assert_eq!(found.path, expected);
}

#[test]
fn discover_finds_workflow_ci_in_grandparent() {
    let mut tmp = Tree::new();
    let expected = tmp.touch("workflow.ci");
    let start = tmp.mkdir("a/b");
    let found = workspace::discover_from(&start, &tmp.chain(&start)).unwrap();
    assert_eq!(found.path, expected);
}

#[test]
fn discover_stops_at_nearest_ancestor() {
    let mut tmp = Tree::new();
    tmp.touch("workflow.ci");
    let expected = tmp.touch("child/workflow.ci");
    let start = tmp.mkdir("child/grandchild");
    let found = workspace::discover_from(&start, &tmp.chain(&start)).unwrap();
    assert_eq!(found.path, expected);
}

#[test]
fn discover_finds_hidden_in_parent_when_no_primary() {
    let mut tmp = Tree::new();
    let expected = tmp.touch(".workflow.ci");
    let start = tmp.mkdir("sub");
    let found = workspace::discover_from(&start, &tmp.chain(&start)).unwrap();
    assert_eq!(found.path, expected);
}

#[test]
fn discover_errors_when_no_workflow_file_found() {
    let tmp = Tree::new();
    let err = workspace::discover_from(BASE, &tmp.chain(BASE))
        .err()
        .expect("should fail when no workflow.ci exists");
    assert!(err.contains("no workflow.ci found"), "unexpected error: {err}");
}

// ── resolve_root ──────────────────────────────────────────────────────────────

#[test]
fn resolve_root_explicit_file_returned_as_is() {
    let mut tmp = Tree::new();
    let file = tmp.touch("my.ci");
    let resolved = workspace::resolve_root(Some(&file), None, "", &Vec::new()).unwrap();
    assert_eq!(resolved.path, file);
}

#[test]
fn resolve_root_workspace_dir_finds_workflow_ci() {
    let mut tmp = Tree::new();
    let expected = tmp.touch("workflow.ci");
    let resolved = workspace::resolve_root(None, Some(&tmp.probe(BASE)), "", &Vec::new()).unwrap();
    assert_eq!(resolved.path, expected);
}

#[test]
fn resolve_root_both_args_errors() {
    let mut tmp = Tree::new();
    let file = tmp.touch("my.ci");
    let err = workspace::resolve_root(Some(&file), Some(&tmp.probe(BASE)), "", &Vec::new())
        .err()
        .expect("providing both file and workspace should fail");
    assert!(err.contains("cannot specify both"), "unexpected error: {err}");
}

#[test]
fn resolve_root_workspace_dir_missing_workflow_errors() {
    let tmp = Tree::new();
    let err = workspace::resolve_root(None, Some(&tmp.probe(BASE)), "", &Vec::new())
        .err()
        .expect("empty workspace dir should fail");
    assert!(err.contains("no workflow.ci found"), "unexpected error: {err}");
}

// ── referenced_files ──────────────────────────────────────────────────────────

#[test]
fn referenced_files_returns_existing_imports() {
    let mut tmp = Tree::new();
    let shared = tmp.touch("shared.ci");
    let root = tmp.write(
        "workflow.ci",
        "workflow ci {\n    use shared ( path = ./shared.ci )\n\n    stage build {\n        job compile { cargo build }\n    }\n}\n",
    );
    let refs = tmp.referenced_files(&root);
    assert_eq!(refs, vec![shared]);
}

#[test]
fn referenced_files_skips_missing_imports() {
    let mut tmp = Tree::new();
    let root = tmp.write(
        "workflow.ci",
        "workflow ci {\n    use missing ( path = ./missing.ci )\n\n    stage build {\n        job compile { cargo build }\n    }\n}\n",
    );
    let refs = tmp.referenced_files(&root);
    assert!(refs.is_empty(), "expected no refs, got: {refs:?}");
}

#[test]
fn referenced_files_empty_for_no_use_block() {
    let mut tmp = Tree::new();
    let root = tmp.write(
        "workflow.ci",
        "workflow ci {\n    stage build {\n        job compile { cargo build }\n    }\n}\n",
    );
    let refs = tmp.referenced_files(&root);
    assert!(refs.is_empty());
}

#[test]
fn referenced_files_resolves_paths_relative_to_root_parent() {
    let mut tmp = Tree::new();
    tmp.touch("shared/helpers.ci");
    let root = tmp.write(
        "ci/workflow.ci",
        "workflow ci {\n    use helpers ( path = ../shared/helpers.ci )\n\n    stage build {\n        job compile { cargo build }\n    }\n}\n",
    );
    let refs = tmp.referenced_files(&root);
    assert_eq!(refs.len(), 1);
    assert_eq!(refs[0], Tree::abs("shared/helpers.ci"));
}

#[test]
fn referenced_files_follows_imports_transitively() {
    let mut tmp = Tree::new();
    let deep = tmp.touch("ci/deep.ci");
    let mid = tmp.write("ci/mid.ci", "workflow mid {\n    use deep ( path = ./deep.ci )\n}\n");
    let root = tmp.write("workflow.ci", "workflow ci {\n    use mid ( path = ./ci/mid.ci )\n}\n");
    let refs = tmp.referenced_files(&root);
    assert_eq!(refs.len(), 2, "refs: {refs:?}");
    for expected in [&mid, &deep] {
        assert!(refs.iter().any(|r| r == expected), "{expected:?} missing from {refs:?}");
    }
}

#[test]
fn referenced_files_breaks_import_loops() {
    let mut tmp = Tree::new();
    // root → a → b → a, and b → root
    tmp.write("a.ci", "workflow a {\n    use b ( path = ./b.ci )\n}\n");
    tmp.write(
        "b.ci",
        "workflow b {\n    use a ( path = ./a.ci )\n    use root ( path = ./workflow.ci )\n}\n",
    );
    let root = tmp.write("workflow.ci", "workflow ci {\n    use a ( path = ./a.ci )\n}\n");
    let refs = tmp.referenced_files(&root);
    assert_eq!(refs.len(), 2, "each file once, and not the root: {refs:?}");
}

#[test]
fn referenced_files_lists_each_file_once() {
    let mut tmp = Tree::new();
    // diamond: root → a, root → b, a → shared, b → shared
    tmp.touch("shared.ci");
    tmp.write("a.ci", "workflow a {\n    use s ( path = ./shared.ci )\n}\n");
    tmp.write("b.ci", "workflow b {\n    use s ( path = ./shared.ci )\n}\n");
    let root = tmp.write(
        "workflow.ci",
        "workflow ci {\n    use a ( path = ./a.ci )\n    use b ( path = ./b.ci )\n}\n",
    );
    let refs = tmp.referenced_files(&root);
    assert_eq!(refs.len(), 3, "a, b and shared once each: {refs:?}");
}

#[test]
fn referenced_files_skips_missing_imports_deeper_in_the_tree() {
    let mut tmp = Tree::new();
    let mid = tmp.write("mid.ci", "workflow mid {\n    use gone ( path = ./gone.ci )\n}\n");
    let root = tmp.write("workflow.ci", "workflow ci {\n    use mid ( path = ./mid.ci )\n}\n");
    let refs = tmp.referenced_files(&root);
    assert_eq!(refs.len(), 1, "refs: {refs:?}");
    assert_eq!(refs[0], mid);
}

// ── import_loops ──────────────────────────────────────────────────────────────

#[test]
fn import_loops_finds_self_import() {
    let mut tmp = Tree::new();
    let root = tmp.write("workflow.ci", "workflow ci {\n    use me ( path = ./workflow.ci )\n}\n");
    assert_eq!(tmp.loops_from(&root), vec!["workflow.ci -> workflow.ci"]);
}

#[test]
fn import_loops_reports_a_mutual_loop_once() {
    let mut tmp = Tree::new();
    let other = tmp.write("other.ci", "workflow other {\n    use root ( path = ./workflow.ci )\n}\n");
    let root = tmp.write("workflow.ci", "workflow ci {\n    use other ( path = ./other.ci )\n}\n");
    assert_eq!(
        tmp.all_loops(&[root, other]),
        vec!["other.ci -> workflow.ci -> other.ci"],
        "one report, from the first file by path"
    );
}

#[test]
fn import_loops_reports_a_longer_loop_once() {
    let mut tmp = Tree::new();
    let a = tmp.write("a.ci", "workflow a {\n    use b ( path = ./b.ci )\n}\n");
    let b = tmp.write("b.ci", "workflow b {\n    use root ( path = ./workflow.ci )\n}\n");
    let root = tmp.write("workflow.ci", "workflow ci {\n    use a ( path = ./a.ci )\n}\n");
    assert_eq!(tmp.all_loops(&[root, a, b]), vec!["a.ci -> b.ci -> workflow.ci -> a.ci"]);
}

#[test]
fn import_loops_empty_when_imports_only_share_files() {
    let mut tmp = Tree::new();
    // diamond, no loop: root -> a -> shared, root -> b -> shared
    let shared = tmp.touch("shared.ci");
    let a = tmp.write("a.ci", "workflow a {\n    use s ( path = ./shared.ci )\n}\n");
    let b = tmp.write("b.ci", "workflow b {\n    use s ( path = ./shared.ci )\n}\n");
    let root = tmp.write(
        "workflow.ci",
        "workflow ci {\n    use a ( path = ./a.ci )\n    use b ( path = ./b.ci )\n}\n",
    );
    assert!(tmp.all_loops(&[root, a, b, shared]).is_empty(), "a shared import is not a loop");
}

#[test]
fn import_loops_reports_a_loop_the_root_is_not_part_of() {
    let mut tmp = Tree::new();
    // root -> a, and a <-> b
    let a = tmp.write("a.ci", "workflow a {\n    use b ( path = ./b.ci )\n}\n");
    let b = tmp.write("b.ci", "workflow b {\n    use a ( path = ./a.ci )\n}\n");
    let root = tmp.write("workflow.ci", "workflow ci {\n    use a ( path = ./a.ci )\n}\n");
    assert!(tmp.loops_from(&root).is_empty(), "the root is not in the loop");
    assert_eq!(tmp.all_loops(&[root, a, b]), vec!["a.ci -> b.ci -> a.ci"]);
}

#[test]
fn resolve_root_discovers_from_the_start_directory() {
    let mut tmp = Tree::new();
    let expected = tmp.touch("workflow.ci");
    let start = tmp.mkdir("deep/down");
    let resolved = workspace::resolve_root(None, None, &start, &tmp.chain(&start)).unwrap();
    assert_eq!(resolved.path, expected);
    assert!(!resolved.ignored_hidden);
}

#[test]
fn import_loops_reports_each_loop_through_the_first_file() {
    let mut tmp = Tree::new();
    // a -> b -> a and a -> c -> a: every file of both loops comes after a.ci
    let a = tmp.write(
        "a.ci",
        "workflow a {\n    use b ( path = ./b.ci )\n    use c ( path = ./c.ci )\n}\n",
    );
    let b = tmp.write("b.ci", "workflow b {\n    use a ( path = ./a.ci )\n}\n");
    let c = tmp.write("c.ci", "workflow c {\n    use a ( path = ./a.ci )\n}\n");
    assert_eq!(tmp.loops_from(&a), vec!["a.ci -> b.ci -> a.ci", "a.ci -> c.ci -> a.ci"]);
    assert!(tmp.loops_from(&b).is_empty(), "a.ci comes first and reports them");
    assert!(tmp.loops_from(&c).is_empty(), "a.ci comes first and reports them");
}

#[test]
fn normalizing_twice_changes_nothing() {
    for p in ["a/./b/../c", "/../x/./y", "../../a/b/..", "", "/", "./"] {
        let once = cianity::paths::normalize(p);
        assert_eq!(cianity::paths::normalize(&once), once, "path: {p}");
    }
    assert_eq!(cianity::paths::normalize("a/./b/../c"), "a/c");
}

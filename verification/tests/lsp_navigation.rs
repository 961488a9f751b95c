//! Tests of the editor navigation: outline, go to definition, references and rename.

use cianity::lower::SourceFile;
use cianity::lsp::references::{self, template_def_at};
use cianity::lsp::rename::{self, PrepareRename};
use cianity::lsp::symbols::{self, SymbolKind};
use cianity::lsp::templates::{parse_files, SourceTree};
use cianity::lsp::{definition, offset_to_position};
use cianity::parser::parse;

fn offset_of(source: &str, needle: &str) -> usize {
    source
        .find(needle)
        .unwrap_or_else(|| panic!("{needle:?} not found in source"))
}

/// The offset of the `n`th occurrence of `needle` (1-based).
fn nth_offset(source: &str, needle: &str, n: usize) -> usize {
    let mut search_from = 0;
    for _ in 1..n {
        let rel = source[search_from..]
            .find(needle)
            .unwrap_or_else(|| panic!("{needle:?} occurrence before {n} not found in source"));
        search_from += rel + needle.len();
    }
    search_from
        + source[search_from..]
            .find(needle)
            .unwrap_or_else(|| panic!("{needle:?} occurrence {n} not found in source"))
}

const FILE: &str = "/tmp/test.ci";

fn no_files() -> Vec<SourceTree> {
    Vec::new()
}

// ── symbols ───────────────────────────────────────────────────────────────────

#[test]
fn symbols_empty_source() {
    let parsed = parse("");
    assert!(symbols::collect(&parsed, "").is_empty());
}

#[test]
fn symbols_single_stage() {
    let src = "workflow w { stage build {} }";
    let parsed = parse(src);
    let syms = symbols::collect(&parsed, src);
    assert_eq!(syms.len(), 1);
    assert_eq!(syms[0].name, "build");
    assert_eq!(syms[0].kind, SymbolKind::Namespace);
}

#[test]
fn symbols_stage_with_job() {
    let src = "workflow w { stage s { job compile {} } }";
    let parsed = parse(src);
    let syms = symbols::collect(&parsed, src);
    let children = syms[0].children.as_deref().expect("expected children");
    let job = children
        .iter()
        .find(|s| s.name == "compile")
        .expect("expected 'compile' child symbol");
    assert_eq!(job.kind, SymbolKind::Function);
}

#[test]
fn symbols_stage_with_template() {
    let src = "workflow w { stage s { template base [] } }";
    let parsed = parse(src);
    let syms = symbols::collect(&parsed, src);
    let children = syms[0].children.as_deref().expect("expected children");
    let tmpl = children
        .iter()
        .find(|s| s.name == "base")
        .expect("expected 'base' child symbol");
    assert_eq!(tmpl.kind, SymbolKind::Class);
}

#[test]
fn symbols_multiple_stages() {
    let src = "workflow w { stage a { job x {} } stage b { job y {} } }";
    let parsed = parse(src);
    let syms = symbols::collect(&parsed, src);
    assert_eq!(syms.len(), 2);
    let names: Vec<&str> = syms.iter().map(|s| s.name.as_str()).collect();
    assert!(names.contains(&"a"), "names: {names:?}");
    assert!(names.contains(&"b"), "names: {names:?}");
}

#[test]
fn symbols_stage_range_starts_after_workflow_wrapper() {
    let src = "workflow w {\n    stage s {}\n}";
    let parsed = parse(src);
    let syms = symbols::collect(&parsed, src);
    assert_eq!(syms[0].range.start.line, 1, "stage 's' is on line 1");
}

#[test]
fn symbols_selection_range_is_the_name() {
    let src = "workflow w {\n    stage build { job compile {} }\n}";
    let parsed = parse(src);
    let syms = symbols::collect(&parsed, src);
    assert_eq!(syms[0].selection_range.start, offset_to_position(src, offset_of(src, "build")));
    assert_eq!(syms[0].selection_range.end.character, 15);
    let children = syms[0].children.as_deref().expect("expected children");
    assert_eq!(children.len(), 1);
    assert!(children[0].children.is_none());
}

// ── definition ────────────────────────────────────────────────────────────────

#[test]
fn definition_inherit_resolves_to_local_template() {
    let src = "workflow w {\n    stage s {\n        template tmplA []\n        job j ( inherit = tmplA ) []\n    }\n}";
    let parsed = parse(src);
    // First "tmplA" is the declaration on line 2; second is the inherit value on line 3.
    let loc = definition::resolve(&parsed, src, nth_offset(src, "tmplA", 2), FILE, &no_files())
        .expect("expected a definition location");
    assert_eq!(loc.path, FILE, "expected location in same file");
    assert_eq!(loc.range.start.line, 2, "template 'tmplA' is declared on line 2");
}

#[test]
fn definition_dependency_ref_resolves_to_job() {
    let src = "workflow w {\n    stage build { job compile {} }\n    stage test { job unit ( dependencies = [build.compile] ) {} }\n}";
    let parsed = parse(src);
    // First "compile" is the job declaration on line 1; second is in the dep ref on line 2.
    let loc = definition::resolve(&parsed, src, nth_offset(src, "compile", 2), FILE, &no_files())
        .expect("expected a definition for dependency");
    assert_eq!(loc.path, FILE);
    assert_eq!(loc.range.start.line, 1, "job 'compile' is declared on line 1");
}

#[test]
fn definition_stage_keyword_returns_none() {
    let src = "workflow w { stage s {} }";
    let parsed = parse(src);
    let result = definition::resolve(&parsed, src, offset_of(src, "stage"), FILE, &no_files());
    assert!(result.is_none(), "'stage' keyword should not resolve to a definition");
}

#[test]
fn definition_stage_name_declaration_returns_none() {
    // A declaration site is not a reference, so it resolves to nothing.
    let src = "workflow w { stage myStage {} }";
    let parsed = parse(src);
    let result = definition::resolve(&parsed, src, offset_of(src, "myStage"), FILE, &no_files());
    assert!(result.is_none(), "stage declaration should not resolve to a definition");
}

#[test]
fn definition_inherit_resolves_into_an_imported_file() {
    let src = "workflow w {\n    use shared (path = ./shared.ci)\n    stage s {\n        job j (inherit = shared/base) []\n    }\n}";
    let shared = "workflow shared {\n    template base [ step a { echo a } ]\n}";
    let files = parse_files(&vec![SourceFile {
        path: "/tmp/shared.ci".to_string(),
        text: Some(shared.to_string()),
    }]);
    let parsed = parse(src);
    let loc = definition::resolve(&parsed, src, offset_of(src, "base"), FILE, &files)
        .expect("expected a definition in the imported file");
    assert_eq!(loc.path, "/tmp/shared.ci");
    assert_eq!(loc.range.start.line, 1);
    assert_eq!(loc.range.start.character, 13);
}

#[test]
fn definition_use_path_resolves_to_the_imported_file() {
    let src = "workflow w {\n    use shared (path = ./shared.ci)\n}";
    let files = parse_files(&vec![SourceFile {
        path: "/tmp/shared.ci".to_string(),
        text: Some("workflow shared {}".to_string()),
    }]);
    let parsed = parse(src);
    let loc = definition::resolve(&parsed, src, offset_of(src, "./shared"), FILE, &files)
        .expect("expected the imported file");
    assert_eq!(loc.path, "/tmp/./shared.ci");
    assert_eq!(loc.range.start.line, 0);
    let missing = definition::resolve(&parsed, src, offset_of(src, "./shared"), FILE, &no_files());
    assert!(missing.is_none());
}

// ── rename ────────────────────────────────────────────────────────────────────

#[test]
fn prepare_rename_on_stage_name() {
    let src = "workflow w { stage myStage {} }";
    let parsed = parse(src);
    let resp = rename::prepare(&parsed, src, offset_of(src, "myStage"))
        .expect("expected PrepareRenameResponse");
    let PrepareRename { range, placeholder } = resp;
    assert_eq!(placeholder, "myStage");
    assert_eq!(range.start.line, 0);
}

#[test]
fn prepare_rename_on_job_name() {
    let src = "workflow w { stage s { job myJob {} } }";
    let parsed = parse(src);
    let resp = rename::prepare(&parsed, src, offset_of(src, "myJob"))
        .expect("expected PrepareRenameResponse");
    let PrepareRename { placeholder, .. } = resp;
    assert_eq!(placeholder, "myJob");
}

#[test]
fn prepare_rename_on_template_name() {
    let src = "workflow w { stage s { template myTmpl [] } }";
    let parsed = parse(src);
    let resp = rename::prepare(&parsed, src, offset_of(src, "myTmpl"))
        .expect("expected PrepareRenameResponse");
    let PrepareRename { placeholder, .. } = resp;
    assert_eq!(placeholder, "myTmpl");
}

#[test]
fn prepare_rename_on_keyword_returns_none() {
    let src = "workflow w { stage s {} }";
    let parsed = parse(src);
    assert!(
        rename::prepare(&parsed, src, offset_of(src, "stage")).is_none(),
        "keywords are not renameable"
    );
}

#[test]
fn prepare_rename_on_qualified_inherit_covers_the_name_only() {
    let src = "workflow w { stage build { template base [] } stage test { job j (inherit = build.base) [ steps ] } }";
    let parsed = parse(src);
    let resp = rename::prepare(&parsed, src, nth_offset(src, "base", 2)).expect("expected a rename range");
    assert_eq!(resp.placeholder, "base");
}

#[test]
fn rename_stage_propagates_to_dependency_references() {
    let src = "workflow w {\n    stage build { job compile {} }\n    stage test { job unit ( dependencies = [build.compile] ) {} }\n}";
    let parsed = parse(src);
    let edits = rename::edits_for(&parsed, src, offset_of(src, "build"), "newBuild")
        .expect("expected rename edits");
    // 2 edits: stage declaration + dep ref stage part.
    assert_eq!(edits.len(), 2, "edits: {edits:?}");
    assert!(edits.iter().all(|e| e.new_text == "newBuild"), "edits: {edits:?}");
}

#[test]
fn rename_job_propagates_to_dependency_references() {
    let src = "workflow w {\n    stage build { job compile {} }\n    stage test { job unit ( dependencies = [build.compile] ) {} }\n}";
    let parsed = parse(src);
    let edits = rename::edits_for(&parsed, src, offset_of(src, "compile"), "newCompile")
        .expect("expected rename edits");
    // 2 edits: job declaration + dep ref job part.
    assert_eq!(edits.len(), 2, "edits: {edits:?}");
    assert!(edits.iter().all(|e| e.new_text == "newCompile"), "edits: {edits:?}");
}

#[test]
fn rename_template_propagates_to_inherit_references() {
    let src = "workflow w {\n    stage s {\n        template base []\n        job a ( inherit = base ) []\n        job b ( inherit = base ) []\n    }\n}";
    let parsed = parse(src);
    let edits = rename::edits_for(&parsed, src, offset_of(src, "base"), "newBase")
        .expect("expected rename edits");
    // 3 edits: template declaration + 2 inherit references.
    assert_eq!(edits.len(), 3, "edits: {edits:?}");
    assert!(edits.iter().all(|e| e.new_text == "newBase"), "edits: {edits:?}");
}

#[test]
fn rename_from_dependency_ref_propagates_to_stage_declaration() {
    // Rename from the stage part of a dep ref also updates the declaration.
    let src = "workflow w {\n    stage build { job compile {} }\n    stage test { job unit ( dependencies = [build.compile] ) {} }\n}";
    let parsed = parse(src);
    // Second "build" is in the dependency reference.
    let edits = rename::edits_for(&parsed, src, nth_offset(src, "build", 2), "infra")
        .expect("expected rename edits");
    assert_eq!(edits.len(), 2, "edits: {edits:?}");
    assert!(edits.iter().all(|e| e.new_text == "infra"), "edits: {edits:?}");
}

#[test]
fn rename_stage_updates_qualified_inherit_references() {
    let src = "workflow w {\n    stage build { template base [] }\n    stage test { job j (inherit = build.base) [ steps ] }\n}";
    let parsed = parse(src);
    let edits = rename::edits_for(&parsed, src, offset_of(src, "build"), "compile")
        .expect("expected rename edits");
    // The stage declaration and the stage part of `build.base`.
    assert_eq!(edits.len(), 2, "edits: {edits:?}");
    assert_eq!(edits[1].range.start.line, 2);
}

// ── references ────────────────────────────────────────────────────────────────

#[test]
fn references_job_name_excludes_declaration_when_not_requested() {
    // Cursor on job declaration without the declaration: only dep refs returned.
    let src = "workflow w {\n    stage build { job compile {} }\n    stage test { job unit ( dependencies = [build.compile] ) {} }\n}";
    let parsed = parse(src);
    let locs = references::find(&parsed, src, offset_of(src, "compile"), false, FILE, &no_files())
        .expect("expected locations");
    assert_eq!(locs.len(), 1, "locs: {locs:?}");
    assert_eq!(locs[0].range.start.line, 2, "dep ref is on line 2");
}

#[test]
fn references_job_name_includes_declaration_when_requested() {
    let src = "workflow w {\n    stage build { job compile {} }\n    stage test { job unit ( dependencies = [build.compile] ) {} }\n}";
    let parsed = parse(src);
    let locs = references::find(&parsed, src, offset_of(src, "compile"), true, FILE, &no_files())
        .expect("expected locations");
    // declaration + dep ref
    assert_eq!(locs.len(), 2, "locs: {locs:?}");
}

#[test]
fn references_template_declaration_finds_all_inherit_uses() {
    let src = "workflow w {\n    stage s {\n        template base []\n        job a ( inherit = base ) []\n        job b ( inherit = base ) []\n    }\n}";
    let parsed = parse(src);
    let locs = references::find(&parsed, src, offset_of(src, "base"), false, FILE, &no_files())
        .expect("expected locations");
    // 2 inherit references, no declaration
    assert_eq!(locs.len(), 2, "locs: {locs:?}");
}

#[test]
fn references_inherit_value_with_declaration_finds_all_sites() {
    // Cursor on an inherit value: the template declaration and all inherit refs.
    let src = "workflow w {\n    stage s {\n        template base []\n        job a ( inherit = base ) []\n        job b ( inherit = base ) []\n    }\n}";
    let parsed = parse(src);
    let locs = references::find(&parsed, src, nth_offset(src, "base", 2), true, FILE, &no_files())
        .expect("expected locations");
    // template declaration + 2 inherit refs
    assert_eq!(locs.len(), 3, "locs: {locs:?}");
}

#[test]
fn references_keyword_returns_none() {
    let src = "workflow w { stage s {} }";
    let parsed = parse(src);
    let result = references::find(&parsed, src, offset_of(src, "stage"), false, FILE, &no_files());
    assert!(result.is_none(), "keywords should not have references");
}

#[test]
fn references_import_name_finds_the_references_through_it() {
    let src = "workflow w {\n    use shared (path = ./shared.ci)\n    stage s {\n        job a (inherit = shared/base) [ steps ]\n        job b (inherit = shared/base) [ steps ]\n    }\n}";
    let parsed = parse(src);
    let locs = references::find(&parsed, src, offset_of(src, "shared"), true, FILE, &no_files())
        .expect("expected locations");
    // The import's name, then the import part of each reference.
    assert_eq!(locs.len(), 3, "locs: {locs:?}");
    assert_eq!(locs[1].range.start.line, 3);
    assert_eq!(locs[2].range.start.line, 4);
}

#[test]
fn template_def_at_returns_name_on_template_declaration() {
    let src = "workflow w { stage s { template myTmpl [] } }";
    let parsed = parse(src);
    let name = template_def_at(&parsed, offset_of(src, "myTmpl")).expect("expected template name");
    assert_eq!(name.name, "myTmpl");
}

#[test]
fn template_def_at_returns_none_for_non_template_positions() {
    let src = "workflow w { stage s { job myJob {} } }";
    let parsed = parse(src);
    assert!(
        template_def_at(&parsed, offset_of(src, "myJob")).is_none(),
        "job name is not a template def"
    );
}

// ── templates ─────────────────────────────────────────────────────────────────

#[test]
fn visible_refs_lists_local_top_level_other_stage_and_imported_templates() {
    let src = "workflow w {\n    use dep (path = ./dep.ci)\n    template top []\n    template shadowed []\n    stage build { template base [] template shadowed [] }\n    stage test { template unit [] }\n}";
    let dep = "workflow dep {\n    template shared []\n    stage lint { template clippy [] }\n}";
    let files = parse_files(&vec![SourceFile { path: "/tmp/dep.ci".to_string(), text: Some(dep.to_string()) }]);
    let parsed = parse(src);
    let root = cianity::ast::Root::cast(parsed.syntax()).expect("root");
    let refs = cianity::lsp::templates::visible_refs(&root, FILE, Some("build"), &files);
    assert_eq!(
        refs,
        vec![
            "base".to_string(),
            "shadowed".to_string(),
            "top".to_string(),
            "test.unit".to_string(),
            "dep/shared".to_string(),
            "dep/lint.clippy".to_string(),
        ]
    );
}

#[test]
fn split_ref_finds_the_import_stage_and_name() {
    let parts = cianity::lsp::templates::split_ref("dep/build.base");
    assert_eq!(parts.import.as_deref(), Some("dep"));
    assert_eq!(parts.stage, Some((4, "build".to_string())));
    assert_eq!(parts.name, (10, "base".to_string()));
    let plain = cianity::lsp::templates::split_ref("base");
    assert_eq!(plain.import, None);
    assert_eq!(plain.stage, None);
    assert_eq!(plain.name, (0, "base".to_string()));
}

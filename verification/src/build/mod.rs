use vstd::prelude::*;

use crate::ast::{AstNode, Root};
use crate::cst::{Node, node_text};
use crate::gitlab::{render, spec_render};
use crate::ir::Workflow;
use crate::lower::{SourceFile, inherits_nothing, import_resolution, local_resolution, lower, lower_with_path, lowering_fuel, no_cross_file_names, workflow_lowered, workflow_lowered_with};
use crate::parser::{Parse, parse, parse_errors, parses_to};
use crate::syntax::SyntaxKind;
use crate::validation::{Severity, models, spec_validate, validate};

verus! {

/// Target CI system.
#[derive(Debug, Clone, Copy, PartialEq, Eq, Structural)]
pub enum Target {
    Gitlab,
}

/// `yaml` is the pipeline of a file with text `source` and no errors: the
/// rendering of the file's tree lowered.
pub open spec fn rendered_from(source: Seq<char>, yaml: Seq<char>) -> bool {
    exists|tree: Node, w: Workflow| #![trigger workflow_lowered(tree, w)]
        parses_to(source, tree) && parse_errors(source).len() == 0 && validation_clean(tree)
            && workflow_lowered(tree, w) && yaml == spec_render(w)
}

/// Validating `tree` finds no error (warnings are allowed).
pub open spec fn validation_clean(tree: Node) -> bool {
    forall|i: int| 0 <= i < spec_validate(tree).len() ==> (#[trigger] spec_validate(tree)[i]).0 != Severity::Error
}

/// `source` parses without errors into a tree whose validation finds an
/// error.
pub open spec fn fails_validation(source: Seq<char>) -> bool {
    exists|tree: Node| #![trigger parses_to(source, tree)]
        parses_to(source, tree) && parse_errors(source).len() == 0 && !validation_clean(tree)
}

/// `source` parses without errors into a tree that validates without error
/// but inherits templates, so that lowering it has references to resolve.
pub open spec fn needs_resolving(source: Seq<char>) -> bool {
    exists|tree: Node| #![trigger parses_to(source, tree)]
        parses_to(source, tree) && parse_errors(source).len() == 0 && validation_clean(tree)
            && !inherits_nothing(tree)
}

/// `reason` is why rendering `source` may fail: parse errors, validation
/// errors, or a reference lowering couldn't resolve.
pub open spec fn render_failure(source: Seq<char>, reason: Seq<char>) -> bool {
    ||| reason == parse_errors_message() && parse_errors(source).len() > 0
    ||| reason == validation_errors_message() && fails_validation(source)
    ||| needs_resolving(source)
}

/// A result of rendering, as plain text.
pub open spec fn result_text(r: Result<String, String>) -> Result<Seq<char>, Seq<char>> {
    match r {
        Ok(y) => Ok(y@),
        Err(m) => Err(m@),
    }
}

/// `r` is what rendering the file `tree`, free of parse errors, gives:
/// the validation-errors message when validating it finds an error;
/// otherwise, on its own, the pipeline of the workflow it lowers to; and
/// with `path`, when no inherited name goes through one of the file's
/// imports, the pipeline of the workflow resolved against `sources`, or the
/// first lowering error.
pub open spec fn render_outcome(
    tree: Node,
    path: Option<Seq<char>>,
    sources: Seq<SourceFile>,
    r: Result<Seq<char>, Seq<char>>,
) -> bool {
    if !validation_clean(tree) {
        r == Err::<Seq<char>, Seq<char>>(validation_errors_message())
    } else {
        match path {
            None => r matches Ok(yaml) && rendered_tree(tree, yaml),
            Some(p) => {
                let res = import_resolution(tree, p, lowering_fuel(tree, sources));
                &&& inherits_nothing(tree) ==> r is Ok
                &&& r matches Ok(yaml) ==> exists|w: Workflow| #[trigger] workflow_lowered(tree, w) && yaml == spec_render(w)
                &&& no_cross_file_names(tree, p) ==> if res.1.errors.len() == 0 {
                    r matches Ok(yaml) && exists|w: Workflow|
                        #[trigger] workflow_lowered_with(tree, w, res.0) && yaml == spec_render(w)
                } else {
                    r == Err::<Seq<char>, Seq<char>>(res.1.errors[0].1)
                }
            },
        }
    }
}

/// `r` is what rendering the text `source` gives: the parse-errors message
/// when parsing it reports errors, and otherwise what rendering its tree
/// gives.
pub open spec fn source_render_outcome(
    source: Seq<char>,
    path: Option<Seq<char>>,
    sources: Seq<SourceFile>,
    r: Result<Seq<char>, Seq<char>>,
) -> bool {
    if parse_errors(source).len() > 0 {
        r == Err::<Seq<char>, Seq<char>>(parse_errors_message())
    } else {
        exists|tree: Node| #[trigger] parses_to(source, tree) && render_outcome(tree, path, sources, r)
    }
}

/// The message for a file at `path` that can't be built, and why.
pub open spec fn build_error_message(path: Seq<char>, reason: Seq<char>) -> Seq<char> {
    "cannot build "@ + path + ": "@ + reason
}

pub open spec fn parse_errors_message() -> Seq<char> {
    "file has parse errors"@
}

pub open spec fn validation_errors_message() -> Seq<char> {
    "file has validation errors"@
}

/// `true` if any of `diags` is an error.
fn has_error(diags: &Vec<crate::validation::Diagnostic>) -> (r: bool)
    ensures
        r == exists|i: int| 0 <= i < diags@.len() && #[trigger] diags@[i].severity == Severity::Error,
{
    let mut i: usize = 0;
    while i < diags.len()
        invariant
            0 <= i <= diags@.len(),
            forall|j: int| 0 <= j < i ==> #[trigger] diags@[j].severity != Severity::Error,
        decreases diags@.len() - i,
    {
        if diags[i].severity == Severity::Error {
            return true;
        }
        i = i + 1;
    }
    false
}

/// `yaml` is the pipeline of the file `tree` on its own: the rendering of
/// the workflow it lowers to.
pub open spec fn rendered_tree(tree: Node, yaml: Seq<char>) -> bool {
    exists|w: Workflow| #[trigger] workflow_lowered_with(tree, w, local_resolution(tree, Seq::empty()).0) && yaml == spec_render(w)
}

/// Validate and lower the parsed file `result`, then render it, resolving
/// imports against `sources` when `path` is given: the parse-errors message
/// when it has parse errors, the validation-errors message when validating
/// its tree finds an error, and otherwise the pipeline, unless a reference
/// can't be resolved.
pub fn render_parsed(result: &Parse, path: Option<&str>, sources: &Vec<SourceFile>) -> (r: Result<String, String>)
    ensures
        result.error_list().len() > 0 || result.tree().kind != SyntaxKind::Root ==> (r matches Err(m) && m@ == parse_errors_message()),
        result.error_list().len() == 0 && result.tree().kind == SyntaxKind::Root && !validation_clean(result.tree())
            ==> (r matches Err(m) && m@ == validation_errors_message()),
        result.error_list().len() == 0 && result.tree().kind == SyntaxKind::Root && validation_clean(result.tree()) && path is None
            ==> (r matches Ok(yaml) && rendered_tree(result.tree(), yaml@)),
        result.error_list().len() == 0 && result.tree().kind == SyntaxKind::Root && validation_clean(result.tree())
            && inherits_nothing(result.tree()) ==> r is Ok,
        r matches Ok(yaml) ==> result.error_list().len() == 0 && result.tree().kind == SyntaxKind::Root
            && validation_clean(result.tree()) && exists|w: Workflow|
            #[trigger] workflow_lowered(result.tree(), w) && yaml@ == spec_render(w),
        r matches Err(m) && path is Some && m@ != parse_errors_message() && m@ != validation_errors_message()
            ==> validation_clean(result.tree()) && !inherits_nothing(result.tree()),
        result.error_list().len() == 0 && result.tree().kind == SyntaxKind::Root ==> render_outcome(
            result.tree(),
            match path {
                Some(p) => Some(p@),
                None => None,
            },
            sources@,
            result_text(r),
        ),
        result.error_list().len() == 0 && result.tree().kind == SyntaxKind::Root && validation_clean(result.tree()) ==> match path {
            Some(p) => no_cross_file_names(result.tree(), p@) ==> (r is Ok <==> import_resolution(
                result.tree(),
                p@,
                lowering_fuel(result.tree(), sources@),
            ).1.errors.len() == 0),
            None => r is Ok,
        },
{
    if !result.is_ok() {
        proof {
            reveal_strlit("file has parse errors");
            reveal_strlit("file has validation errors");
            assert(parse_errors_message()[9] != validation_errors_message()[9]);
        }
        return Err("file has parse errors".to_owned());
    }
    let root = match Root::cast(result.syntax()) {
        Some(r) => r,
        None => {
            proof {
                reveal_strlit("file has parse errors");
                reveal_strlit("file has validation errors");
                assert(parse_errors_message()[9] != validation_errors_message()[9]);
            }
            return Err("file has parse errors".to_owned());
        },
    };
    let diags = validate(&root);
    if has_error(&diags) {
        proof {
            reveal_strlit("file has validation errors");
            let i = choose|i: int| 0 <= i < diags@.len() && #[trigger] diags@[i].severity == Severity::Error;
            assert(models(diags@)[i].0 == Severity::Error);
            assert(!validation_clean(root.node()));
            assert(root.node() == result.tree());
            reveal_strlit("file has parse errors");
            assert(parse_errors_message()[9] != validation_errors_message()[9]);
        }
        return Err("file has validation errors".to_owned());
    }
    proof {
        assert forall|i: int| 0 <= i < spec_validate(root.node()).len() implies (#[trigger] spec_validate(root.node())[i]).0 != Severity::Error by {
            assert(models(diags@)[i] == crate::validation::model(diags@[i]));
        }
    }
    let workflow = match path {
        None => lower(&root),
        Some(p) => match lower_with_path(&root, p, sources) {
            Ok(w) => w,
            Err(e) => {
                proof {
                    assert(!inherits_nothing(root.node()));
                    assert(root.node() == result.tree());
                }
                return Err(e);
            },
        },
    };
    let yaml = render(&workflow);
    proof {
        assert(workflow_lowered(root.node(), workflow));
        assert(root.node() == result.tree());
        if path is None {
            assert(workflow_lowered_with(root.node(), workflow, local_resolution(root.node(), Seq::empty()).0));
        }
        if let Some(p) = path {
            if no_cross_file_names(root.node(), p@) {
                assert(workflow_lowered_with(root.node(), workflow, import_resolution(root.node(), p@, lowering_fuel(root.node(), sources@)).0));
            }
        }
    }
    Ok(yaml)
}

/// Parse, validate and lower `source`, then render it, resolving imports
/// against `sources` when `path` is given.
fn render_checked(source: &str, path: Option<&str>, sources: &Vec<SourceFile>) -> (r: Result<String, String>)
    ensures
        r matches Ok(yaml) ==> rendered_from(source@, yaml@),
        r matches Err(m) ==> m@ == parse_errors_message() || m@ == validation_errors_message()
            || path is Some,
        r matches Err(m) && m@ == validation_errors_message() && path is None ==> fails_validation(source@),
        r matches Err(m) ==> render_failure(source@, m@),
        source_render_outcome(
            source@,
            match path {
                Some(p) => Some(p@),
                None => None,
            },
            sources@,
            result_text(r),
        ),
{
    let result = parse(source);
    let r = render_parsed(&result, path, sources);
    proof {
        let tree = result.tree();
        assert(node_text(tree) == source@);
        assert(parses_to(source@, tree));
        match &r {
            Ok(yaml) => {
                let w = choose|w: Workflow| #[trigger] workflow_lowered(tree, w) && yaml@ == spec_render(w);
                assert(workflow_lowered(tree, w));
            },
            Err(m) => {
                reveal_strlit("file has parse errors");
                reveal_strlit("file has validation errors");
                assert(parse_errors_message()[9] != validation_errors_message()[9]);
                if result.error_list().len() == 0 && tree.kind == SyntaxKind::Root && validation_clean(tree) {
                    assert(path is Some);
                    assert(!inherits_nothing(tree));
                    assert(needs_resolving(source@));
                } else if result.error_list().len() == 0 && tree.kind == SyntaxKind::Root {
                    assert(fails_validation(source@));
                }
            },
        }
    }
    r
}

/// Render a `ciane` source string into a CI-system configuration string.
///
/// Cross-file template references (`inherit = name/template`) are not
/// resolved; those jobs produce empty scripts. Use `render_path_to_string`
/// when the source is read from a file and cross-file resolution is required.
///
/// Fails if the source has parse errors or validation errors.
pub fn render_to_string(source: &str, target: Target) -> (r: Result<String, String>)
    ensures
        r matches Ok(yaml) ==> rendered_from(source@, yaml@),
        r matches Err(m) ==> m@ == parse_errors_message() || m@ == validation_errors_message(),
        r matches Err(m) && m@ == validation_errors_message() ==> fails_validation(source@),
        source_render_outcome(source@, None, Seq::empty(), result_text(r)),
{
    match target {
        Target::Gitlab => render_checked(source, None, &Vec::new()),
    }
}

/// Render the `ciane` file at `path`, whose text is `source`, into a
/// CI-system configuration string, resolving any cross-file template
/// references against `sources`.
///
/// Fails if the file has parse errors or validation errors, or a cross-file
/// template reference cannot be resolved.
pub fn render_path_to_string(path: &str, source: &str, sources: &Vec<SourceFile>, target: Target) -> (r: Result<String, String>)
    ensures
        r matches Ok(yaml) ==> rendered_from(source@, yaml@),
        r matches Err(m) ==> render_failure(source@, m@),
        source_render_outcome(source@, Some(path@), sources@, result_text(r)),
{
    match target {
        Target::Gitlab => render_checked(source, Some(path), sources),
    }
}

/// Where the pipeline built from the file at `path` goes: `output` when
/// given, else `.gitlab-ci.yml` beside the file.
pub open spec fn spec_output_path(path: Seq<char>, output: Option<Seq<char>>) -> Seq<char> {
    match output {
        Some(o) => o,
        None => {
            let dir = crate::paths::spec_parent_dir(path);
            crate::paths::spec_join_path(if dir == crate::paths::dot() { Seq::empty() } else { dir }, ".gitlab-ci.yml"@)
        },
    }
}

/// Build the `ciane` file at `path`, whose text is `source`, into a
/// CI-system configuration: the path to write it to and its text.
///
/// Fails, naming the file, if it can't be built.
pub fn run(path: &str, source: &str, sources: &Vec<SourceFile>, target: Target, output: Option<&str>) -> (r: Result<(String, String), String>)
    ensures
        r matches Ok((out, yaml)) ==> rendered_from(source@, yaml@) && out@ == spec_output_path(
            path@,
            match output {
                Some(o) => Some(o@),
                None => None,
            },
        ),
        r matches Err(m) ==> exists|reason: Seq<char>|
            #[trigger] render_failure(source@, reason) && m@ == build_error_message(path@, reason),
        exists|rendered: Result<Seq<char>, Seq<char>>| #[trigger]
            source_render_outcome(source@, Some(path@), sources@, rendered) && match rendered {
                Ok(yaml) => r matches Ok((out, y)) && y@ == yaml,
                Err(reason) => r matches Err(m) && m@ == build_error_message(path@, reason),
            },
{
    match render_path_to_string(path, source, sources, target) {
        Err(e) => {
            let mut m = String::new();
            m.append("cannot build ");
            m.append(path);
            m.append(": ");
            m.append(e.as_str());
            assert(m@ =~= build_error_message(path@, e@));
            assert(render_failure(source@, e@));
            assert(source_render_outcome(source@, Some(path@), sources@, result_text(Err::<String, String>(e))));
            Err(m)
        },
        Ok(yaml) => {
            let out = match output {
                Some(o) => o.to_owned(),
                None => {
                    let dir = crate::paths::parent_dir(path);
                    let dot: Vec<char> = vec!['.'];
                    let dir_chars = crate::text::chars_of(dir.as_str());
                    let base = if crate::paths::seq_eq(&dir_chars, &dot) { String::new() } else { dir };
                    proof {
                        assert(dot@ =~= crate::paths::dot());
                    }
                    crate::paths::join_path(base.as_str(), ".gitlab-ci.yml")
                },
            };
            assert(source_render_outcome(source@, Some(path@), sources@, result_text(Ok::<String, String>(yaml))));
            Ok((out, yaml))
        },
    }
}

} // verus!

use vstd::prelude::*;

use crate::ast::{AstNode, Attr, HasAttrList, HasName, Root, find_attr};
use crate::cst::Node;
use crate::ir::dependency_errors;
use crate::lower::{ErrorSite, LowerError, SourceFile, lower_with_path_partial};
use crate::parser::{Parse, ParseError, errors_view, parse, parse_errors, parses_to};
use crate::paths::import_target;
use crate::text::str_eq;
use crate::validation::{DiagModel, Diagnostic, Severity, inherit_names_from_attr, models, span_of, spans_ok, spec_inherit_names, spec_span, spec_validate, validate};
use crate::lsp::templates::{first_named, first_named_from, pairs_view, spec_inherit_attrs, stages_of};
use crate::ast::spec_name;
use crate::ir::strs_view;
use crate::syntax::SyntaxKind;
use crate::ast::spec_root_items;
use crate::cst::spec_child_node;
use crate::cst::spec_child_nodes;
use crate::workspace::{FileImports, import_loops, missing_imports, scan_imports};

verus! {

/// `f` describes the imports of `s`: same path, readable alike, and the
/// `use` paths of its text.
pub open spec fn describes(f: FileImports, s: SourceFile) -> bool {
    &&& f.path@ == s.path@
    &&& (f.uses is Some <==> s.text is Some)
    &&& f.uses matches Some(u) ==> crate::workspace::scanned_imports(
        s.text->0@,
        u@.map_values(|x: String| x@),
    )
}

/// What each file among `sources` imports, as the import graph needs it.
pub fn imports_table(sources: &Vec<SourceFile>) -> (r: Vec<FileImports>)
    ensures
        r@.len() == sources@.len(),
        forall|i: int| 0 <= i < r@.len() ==> describes(#[trigger] r@[i], sources@[i]),
{
    let mut r: Vec<FileImports> = Vec::new();
    let mut i: usize = 0;
    while i < sources.len()
        invariant
            0 <= i <= sources@.len(),
            r@.len() == i,
            forall|j: int| 0 <= j < i ==> describes(#[trigger] r@[j], sources@[j]),
        decreases sources@.len() - i,
    {
        let uses = match &sources[i].text {
            Some(t) => Some(scan_imports(t.as_str())),
            None => None,
        };
        let f = FileImports { path: sources[i].path.clone(), uses };
        assert(describes(f, sources@[i as int]));
        r.push(f);
        i = i + 1;
    }
    r
}

/// An error-level diagnostic.
fn error_at(message: String, span: std::ops::Range<usize>) -> (d: Diagnostic)
    ensures
        d.severity == Severity::Error,
        d.message@ == message@,
        d.span == span,
{
    Diagnostic { severity: Severity::Error, message, span }
}

fn empty_span() -> (r: std::ops::Range<usize>)
    ensures
        r.start == 0 && r.end == 0,
{
    0..0
}

fn node_span(n: &Node) -> (r: std::ops::Range<usize>)
    ensures
        r.start <= r.end,
        (r.start, r.end) == spec_span(*n),
{
    span_of(n)
}

/// The span a diagnostic points at, as a pair.
pub open spec fn span_pair(r: std::ops::Range<usize>) -> (usize, usize) {
    (r.start, r.end)
}

/// The attribute `a` is an `inherit` attribute that lists `reference`.
pub open spec fn names_ref(a: Node, reference: Seq<char>) -> bool {
    a.kind == SyntaxKind::Attr && spec_inherit_names(a).contains(reference)
}

/// Index of the first of `ps[from..]` whose attribute lists `reference`.
pub open spec fn first_naming(ps: Seq<(Option<Seq<char>>, Node)>, reference: Seq<char>, from: int) -> int
    decreases ps.len() - from,
{
    if from < 0 || from >= ps.len() {
        ps.len() as int
    } else if names_ref(ps[from].1, reference) {
        from
    } else {
        first_naming(ps, reference, from + 1)
    }
}

/// The span of the first `inherit` attribute of the file that lists
/// `reference`, or nothing.
pub open spec fn spec_inherit_ref_span(root: Node, reference: Seq<char>) -> (usize, usize) {
    let ps = spec_inherit_attrs(root);
    let i = first_naming(ps, reference, 0);
    if i < ps.len() {
        spec_span(ps[i].1)
    } else {
        (0, 0)
    }
}

/// The span of the `inherit` attribute that names `reference`.
fn inherit_ref_span(root: &Root, reference: &str) -> (r: std::ops::Range<usize>)
    ensures
        r.start <= r.end,
        span_pair(r) == spec_inherit_ref_span(root.node(), reference@),
{
    let attrs = crate::lsp::templates::inherit_attrs(root);
    let ghost ps = spec_inherit_attrs(root.node());
    let mut i: usize = 0;
    while i < attrs.len()
        invariant
            0 <= i <= attrs@.len(),
            pairs_view(attrs@) == ps,
            ps == spec_inherit_attrs(root.node()),
            first_naming(ps, reference@, 0) == first_naming(ps, reference@, i as int),
        decreases attrs@.len() - i,
    {
        let node = attrs[i].1;
        assert(ps[i as int].1 == *node);
        match Attr::cast(node) {
            Some(a) => {
                let names = inherit_names_from_attr(&a);
                if crate::text::contains_str(&names, reference) {
                    proof {
                        let k = choose|k: int| 0 <= k < names@.len() && #[trigger] names@[k]@ == reference@;
                        assert(strs_view(names@)[k] == reference@);
                        assert(a.node() == *node);
                        assert(spec_inherit_names(*node)[k] == reference@);
                        assert(spec_inherit_names(*node).contains(reference@));
                        assert(names_ref(ps[i as int].1, reference@));
                        assert(first_naming(ps, reference@, i as int) == i);
                    }
                    return node_span(node);
                }
                proof {
                    if spec_inherit_names(*node).contains(reference@) {
                        let k = choose|k: int| 0 <= k < spec_inherit_names(*node).len() && spec_inherit_names(*node)[k] == reference@;
                        assert(names@[k]@ == strs_view(names@)[k]);
                    }
                }
            },
            None => {},
        }
        i = i + 1;
    }
    empty_span()
}

/// The job `job` of the first stage called `stage`, if that stage has a
/// body with such a job.
pub open spec fn spec_find_job(root: Node, stage: Seq<char>, job: Seq<char>) -> Option<Node> {
    match first_named(stages_of(root), stage) {
        Some(s) => match spec_child_node(s, SyntaxKind::StageBody) {
            Some(b) => first_named(spec_child_nodes(b.children@, SyntaxKind::Job), job),
            None => None,
        },
        None => None,
    }
}

/// The job `job_name` of stage `stage_name`.
fn find_job<'a>(root: &Root<'a>, stage_name: &str, job_name: &str) -> (r: Option<crate::ast::Job<'a>>)
    ensures
        match r {
            Some(j) => spec_find_job(root.node(), stage_name@, job_name@) == Some(j.node()),
            None => spec_find_job(root.node(), stage_name@, job_name@) is None,
        },
{
    let stages = root.stages();
    let ghost ss = stages_of(root.node());
    let mut s: usize = 0;
    while s < stages.len()
        invariant
            0 <= s <= stages@.len(),
            stages@.len() == ss.len(),
            forall|j: int| 0 <= j < stages@.len() ==> #[trigger] stages@[j].node() == ss[j],
            ss == stages_of(root.node()),
            first_named(ss, stage_name@) == first_named_from(ss, stage_name@, s as int),
        decreases stages@.len() - s,
    {
        assert(stages@[s as int].node() == ss[s as int]);
        match stages[s].name() {
            Some(n) => if str_eq(n.as_str(), stage_name) {
                proof {
                    assert(spec_name(ss[s as int]) == Some(stage_name@));
                    assert(first_named_from(ss, stage_name@, s as int) == Some(ss[s as int]));
                }
                // The first stage of that name.
                let body = match stages[s].body() {
                    Some(b) => b,
                    None => {
                        return None;
                    },
                };
                let jobs = body.jobs();
                let ghost sj = spec_child_nodes(body.node().children@, SyntaxKind::Job);
                let mut j: usize = 0;
                while j < jobs.len()
                    invariant
                        0 <= j <= jobs@.len(),
                        jobs@.len() == sj.len(),
                        forall|k: int| 0 <= k < jobs@.len() ==> #[trigger] jobs@[k].node() == sj[k],
                        sj == spec_child_nodes(body.node().children@, SyntaxKind::Job),
                        ss == stages_of(root.node()),
                        first_named(ss, stage_name@) == Some(ss[s as int]),
                        spec_child_node(ss[s as int], SyntaxKind::StageBody) == Some(body.node()),
                        first_named(sj, job_name@) == first_named_from(sj, job_name@, j as int),
                    decreases jobs@.len() - j,
                {
                    assert(jobs@[j as int].node() == sj[j as int]);
                    match jobs[j].name() {
                        Some(jn) => if str_eq(jn.as_str(), job_name) {
                            proof {
                                assert(spec_name(sj[j as int]) == Some(job_name@));
                                assert(first_named_from(sj, job_name@, j as int) == Some(sj[j as int]));
                                crate::cst::lemma_child_nodes_kind(body.node().children@, SyntaxKind::Job, j as int);
                            }
                            return crate::ast::Job::cast(jobs[j].syntax());
                        },
                        None => {},
                    }
                    j = j + 1;
                }
                assert(first_named_from(sj, job_name@, j as int) is None);
                return None;
            },
            None => {},
        }
        s = s + 1;
    }
    None
}

/// The span of the first step called `step` among the steps of `body`, or
/// nothing.
pub open spec fn spec_step_span(body: Node, step: Seq<char>) -> (usize, usize) {
    match first_named(spec_child_nodes(body.children@, SyntaxKind::Step), step) {
        Some(n) => spec_span(n),
        None => (0, 0),
    }
}

/// The span of the first step named `step` among the steps of `body`.
fn step_span(body: &crate::ast::JobBodySteps, step: &str) -> (r: std::ops::Range<usize>)
    ensures
        r.start <= r.end,
        span_pair(r) == spec_step_span(body.node(), step@),
{
    let steps = body.steps();
    let ghost st = spec_child_nodes(body.node().children@, SyntaxKind::Step);
    let mut i: usize = 0;
    while i < steps.len()
        invariant
            0 <= i <= steps@.len(),
            steps@.len() == st.len(),
            forall|k: int| 0 <= k < steps@.len() ==> #[trigger] steps@[k].node() == st[k],
            st == spec_child_nodes(body.node().children@, SyntaxKind::Step),
            first_named(st, step@) == first_named_from(st, step@, i as int),
        decreases steps@.len() - i,
    {
        assert(steps@[i as int].node() == st[i as int]);
        match steps[i].name() {
            Some(n) => if str_eq(n.as_str(), step) {
                proof {
                    assert(spec_name(st[i as int]) == Some(step@));
                    assert(first_named_from(st, step@, i as int) == Some(st[i as int]));
                }
                return node_span(steps[i].syntax());
            },
            None => {},
        }
        i = i + 1;
    }
    empty_span()
}

/// The span of a bare `step` reference in the body of job `job` of stage
/// `stage`, or nothing.
pub open spec fn spec_step_ref_span(root: Node, stage: Seq<char>, job: Seq<char>, step: Seq<char>) -> (usize, usize) {
    match spec_find_job(root, stage, job) {
        Some(j) => match spec_child_node(j, SyntaxKind::JobBodySteps) {
            Some(b) => spec_step_span(b, step),
            None => (0, 0),
        },
        None => (0, 0),
    }
}

/// The span of a bare `step` reference in a job body.
fn step_ref_span(root: &Root, stage_name: &str, job_name: &str, step: &str) -> (r: std::ops::Range<usize>)
    ensures
        r.start <= r.end,
        span_pair(r) == spec_step_ref_span(root.node(), stage_name@, job_name@, step@),
{
    match find_job(root, stage_name, job_name) {
        Some(job) => match job.steps_body() {
            Some(body) => step_span(&body, step),
            None => empty_span(),
        },
        None => empty_span(),
    }
}

/// Index of the first of `ss[from..]` called `name` that has a body.
pub open spec fn first_with_body(ss: Seq<Node>, name: Seq<char>, from: int) -> int
    decreases ss.len() - from,
{
    if from < 0 || from >= ss.len() {
        ss.len() as int
    } else if spec_name(ss[from]) == Some(name) && spec_child_node(ss[from], SyntaxKind::StageBody) is Some {
        from
    } else {
        first_with_body(ss, name, from + 1)
    }
}

/// The templates a template step reference may be in: the top-level ones,
/// or those of the first stage called `stage` that has a body.
pub open spec fn templates_in(root: Node, stage: Option<Seq<char>>) -> Seq<Node> {
    match stage {
        None => spec_root_items(root, SyntaxKind::TemplateDef),
        Some(st) => {
            let ss = stages_of(root);
            let i = first_with_body(ss, st, 0);
            if i < ss.len() {
                spec_child_nodes(spec_child_node(ss[i], SyntaxKind::StageBody)->0.children@, SyntaxKind::TemplateDef)
            } else {
                Seq::empty()
            }
        },
    }
}

/// The span of a bare `step` reference in the body of the first template
/// called `template` among `templates_in(root, stage)`, or nothing.
pub open spec fn spec_template_step_span(root: Node, stage: Option<Seq<char>>, template: Seq<char>, step: Seq<char>) -> (usize, usize) {
    match first_named(templates_in(root, stage), template) {
        Some(t) => match spec_child_node(t, SyntaxKind::JobBodySteps) {
            Some(b) => spec_step_span(b, step),
            None => (0, 0),
        },
        None => (0, 0),
    }
}

/// The templates of the first stage called `stage_name` that has a body.
fn stage_templates<'a>(root: &Root<'a>, stage_name: &str) -> (r: Vec<crate::ast::TemplateDef<'a>>)
    ensures
        r@.len() == templates_in(root.node(), Some(stage_name@)).len(),
        forall|k: int| 0 <= k < r@.len() ==> #[trigger] r@[k].node() == templates_in(root.node(), Some(stage_name@))[k],
{
    let stages = root.stages();
    let ghost ss = stages_of(root.node());
    let mut s: usize = 0;
    while s < stages.len()
        invariant
            0 <= s <= stages@.len(),
            stages@.len() == ss.len(),
            forall|j: int| 0 <= j < stages@.len() ==> #[trigger] stages@[j].node() == ss[j],
            ss == stages_of(root.node()),
            first_with_body(ss, stage_name@, 0) == first_with_body(ss, stage_name@, s as int),
        decreases stages@.len() - s,
    {
        assert(stages@[s as int].node() == ss[s as int]);
        match (stages[s].name(), stages[s].body()) {
            (Some(n), Some(body)) => if str_eq(n.as_str(), stage_name) {
                proof {
                    assert(first_with_body(ss, stage_name@, s as int) == s);
                }
                return body.templates();
            },
            _ => {},
        }
        s = s + 1;
    }
    let r: Vec<crate::ast::TemplateDef<'a>> = Vec::new();
    assert(templates_in(root.node(), Some(stage_name@)) =~= Seq::<Node>::empty());
    r
}

/// The span of a bare `step` reference in the body of a template of the
/// file: a top-level one when `stage` is none.
fn template_step_span(root: &Root, stage: &Option<String>, template: &str, step: &str) -> (r: std::ops::Range<usize>)
    ensures
        r.start <= r.end,
        span_pair(r) == spec_template_step_span(root.node(), crate::ir::opt_view(*stage), template@, step@),
{
    let ghost tin = templates_in(root.node(), crate::ir::opt_view(*stage));
    let tmpls = match stage {
        None => root.templates(),
        Some(stage_name) => stage_templates(root, stage_name.as_str()),
    };
    assert(tmpls@.len() == tin.len());
    let mut i: usize = 0;
    while i < tmpls.len()
        invariant
            0 <= i <= tmpls@.len(),
            tmpls@.len() == tin.len(),
            forall|k: int| 0 <= k < tmpls@.len() ==> #[trigger] tmpls@[k].node() == tin[k],
            first_named(tin, template@) == first_named_from(tin, template@, i as int),
            tin == templates_in(root.node(), crate::ir::opt_view(*stage)),
        decreases tmpls@.len() - i,
    {
        assert(tmpls@[i as int].node() == tin[i as int]);
        match tmpls[i].name() {
            Some(n) => if str_eq(n.as_str(), template) {
                proof {
                    assert(spec_name(tin[i as int]) == Some(template@));
                    assert(first_named_from(tin, template@, i as int) == Some(tin[i as int]));
                }
                return match tmpls[i].body() {
                    Some(body) => step_span(&body, step),
                    None => empty_span(),
                };
            },
            None => {},
        }
        i = i + 1;
    }
    empty_span()
}

/// Index of the first of `decls[from..]` whose `path` refers to `file` from
/// the file at `path`.
pub open spec fn first_importing(decls: Seq<Node>, path: Seq<char>, file: Seq<char>, from: int) -> int
    decreases decls.len() - from,
{
    if from < 0 || from >= decls.len() {
        decls.len() as int
    } else if match crate::ast::spec_attr_scalar(decls[from], crate::ast::seq_path()) {
        Some(p) => crate::paths::spec_import_target(path, p) == file,
        None => false,
    } {
        from
    } else {
        first_importing(decls, path, file, from + 1)
    }
}

/// The span of the first `use` import of the file at `path` that refers to
/// `file`, or nothing.
pub open spec fn spec_import_span(root: Node, path: Seq<char>, file: Seq<char>) -> (usize, usize) {
    let ds = spec_root_items(root, SyntaxKind::UseDecl);
    let i = first_importing(ds, path, file, 0);
    if i < ds.len() {
        spec_span(ds[i])
    } else {
        (0, 0)
    }
}

/// The span of the `use` import that brings in `file`.
fn import_span(root: &Root, path: &str, file: &str) -> (r: std::ops::Range<usize>)
    ensures
        r.start <= r.end,
        span_pair(r) == spec_import_span(root.node(), path@, file@),
{
    let decls = root.use_decls();
    let ghost ds = spec_root_items(root.node(), SyntaxKind::UseDecl);
    let mut i: usize = 0;
    while i < decls.len()
        invariant
            0 <= i <= decls@.len(),
            decls@.len() == ds.len(),
            forall|k: int| 0 <= k < decls@.len() ==> #[trigger] decls@[k].node() == ds[k],
            ds == spec_root_items(root.node(), SyntaxKind::UseDecl),
            first_importing(ds, path@, file@, 0) == first_importing(ds, path@, file@, i as int),
        decreases decls@.len() - i,
    {
        assert(decls@[i as int].node() == ds[i as int]);
        match decls[i].path() {
            Some(loc) => {
                let target = import_target(path, loc.as_str());
                if str_eq(target.as_str(), file) {
                    proof {
                        assert(crate::ast::spec_attr_scalar(ds[i as int], crate::ast::seq_path()) == Some(loc@));
                        assert(first_importing(ds, path@, file@, i as int) == i);
                    }
                    return node_span(decls[i].syntax());
                }
            },
            None => {},
        }
        i = i + 1;
    }
    empty_span()
}

/// The span of the job's `dependencies` attribute, or its `inherit` attribute
/// if the dependencies come from a template, falling back to the whole job.
pub open spec fn spec_job_dependency_span(root: Node, stage: Seq<char>, job: Seq<char>) -> (usize, usize) {
    match spec_find_job(root, stage, job) {
        Some(j) => match crate::ast::spec_find_attr(j, "dependencies"@) {
            Some(a) => spec_span(a),
            None => match crate::ast::spec_find_attr(j, "inherit"@) {
                Some(a) => spec_span(a),
                None => spec_span(j),
            },
        },
        None => (0, 0),
    }
}

fn job_dependency_span(root: &Root, stage_name: &str, job_name: &str) -> (r: std::ops::Range<usize>)
    ensures
        r.start <= r.end,
        span_pair(r) == spec_job_dependency_span(root.node(), stage_name@, job_name@),
{
    let job = match find_job(root, stage_name, job_name) {
        Some(j) => j,
        None => return empty_span(),
    };
    match find_attr(job.syntax(), "dependencies") {
        Some(a) => node_span(a.syntax()),
        None => match find_attr(job.syntax(), "inherit") {
            Some(a) => node_span(a.syntax()),
            None => node_span(job.syntax()),
        },
    }
}

fn push_diag(diagnostics: &mut Vec<Diagnostic>, message: String, span: std::ops::Range<usize>)
    requires
        spans_ok(old(diagnostics)@),
        span.start <= span.end,
    ensures
        spans_ok(final(diagnostics)@),
        final(diagnostics)@.len() == old(diagnostics)@.len() + 1,
        forall|i: int| 0 <= i < old(diagnostics)@.len() ==> #[trigger] final(diagnostics)@[i] == old(diagnostics)@[i],
        final(diagnostics)@.last().severity == Severity::Error,
        final(diagnostics)@.last().message@ == message@,
        final(diagnostics)@.last().span == span,
{
    diagnostics.push(error_at(message, span));
}

/// An error-level diagnostic as a plain value.
pub open spec fn error_model(message: Seq<char>, span: (usize, usize)) -> DiagModel {
    (Severity::Error, message, span.0, span.1)
}

pub open spec fn missing_message(name: Seq<char>, target: Seq<char>) -> Seq<char> {
    "import `"@ + name + "` references `"@ + target + "`, which does not exist"@
}

/// An error for each import of a file that doesn't exist, at its `use`.
pub open spec fn missing_diags(root: Node, path: Seq<char>, ms: Seq<(Seq<char>, Seq<char>)>) -> Seq<DiagModel> {
    ms.map_values(|m: (Seq<char>, Seq<char>)| error_model(missing_message(m.0, m.1), spec_import_span(root, path, m.1)))
}

pub open spec fn loop_message(chain: Seq<Seq<char>>) -> Seq<char> {
    "import loop: "@ + crate::ir::join_arrow(chain)
}

/// Where an import loop is pointed at: the `use` of its second file.
pub open spec fn loop_span(root: Node, path: Seq<char>, chain: Seq<Seq<char>>) -> (usize, usize) {
    if chain.len() > 1 {
        spec_import_span(root, path, chain[1])
    } else {
        (0, 0)
    }
}

/// An error for each import loop.
pub open spec fn loop_diags(root: Node, path: Seq<char>, ls: Seq<Vec<String>>) -> Seq<DiagModel> {
    ls.map_values(|c: Vec<String>| error_model(loop_message(strs_view(c@)), loop_span(root, path, strs_view(c@))))
}

/// Where a lowering error is pointed at.
pub open spec fn site_span(root: Node, path: Seq<char>, site: ErrorSite) -> (usize, usize) {
    match site {
        ErrorSite::InheritRef(reference) => spec_inherit_ref_span(root, reference@),
        ErrorSite::Import(file) => spec_import_span(root, path, file@),
        ErrorSite::StepRef { stage, job, step } => spec_step_ref_span(root, stage@, job@, step@),
        ErrorSite::TemplateStepRef { stage, template, step } => spec_template_step_span(
            root,
            crate::ir::opt_view(stage),
            template@,
            step@,
        ),
    }
}

/// An error for each reference that couldn't be resolved.
pub open spec fn lower_diags(root: Node, path: Seq<char>, es: Seq<LowerError>) -> Seq<DiagModel> {
    es.map_values(|e: LowerError| error_model(e.message@, site_span(root, path, e.site)))
}

/// An error for each dependency that can't be satisfied, at the job.
pub open spec fn dep_diags(root: Node, ds: Seq<(Seq<char>, Seq<char>, Seq<char>)>) -> Seq<DiagModel> {
    ds.map_values(|d: (Seq<char>, Seq<char>, Seq<char>)| error_model(d.2, spec_job_dependency_span(root, d.0, d.1)))
}

/// The imports of `sources`, as the checks read them.
pub open spec fn tables_for(tbl: Seq<FileImports>, sources: Seq<SourceFile>) -> bool {
    tbl.len() == sources.len() && forall|i: int| 0 <= i < tbl.len() ==> describes(#[trigger] tbl[i], sources[i])
}

/// `ds` are the diagnostics that checking what the file `root` at `path`
/// refers to adds: for `ms`, the imports of files that don't exist among
/// `sources`; for `ls`, import loops the file reports; for `es`, references
/// that lowering couldn't resolve; for `deps`, the dependency errors of the
/// lowered workflow.
pub open spec fn resolved_diags(
    root: Node,
    path: Seq<char>,
    sources: Seq<SourceFile>,
    ds: Seq<DiagModel>,
    ms: Seq<(Seq<char>, Seq<char>)>,
    ls: Seq<Vec<String>>,
    es: Seq<LowerError>,
    deps: Seq<(Seq<char>, Seq<char>, Seq<char>)>,
) -> bool {
    &&& exists|tbl: Seq<FileImports>| #[trigger] tables_for(tbl, sources)
        && ms == crate::workspace::spec_missing(tbl, path, spec_root_items(root, SyntaxKind::UseDecl), spec_root_items(root, SyntaxKind::UseDecl).len() as int)
        && forall|i: int| 0 <= i < ls.len() ==> crate::workspace::reported_loop(tbl, path, #[trigger] ls[i]@)
    &&& exists|w: crate::ir::Workflow| #[trigger] crate::lower::workflow_lowered(root, w) && crate::ir::dependency_report(w, deps)
    &&& ds == missing_diags(root, path, ms) + loop_diags(root, path, ls) + lower_diags(root, path, es) + dep_diags(root, deps)
}

/// Report imports of files that don't exist, import loops, template
/// references that can't be resolved and dependencies that can't be
/// satisfied.
///
/// References are checked on the lowered workflow, so that templates
/// inherited from other files, and the `inherit` chains inside those files,
/// are included.
#[verifier::rlimit(100)]
fn check_resolved_workflow(root: &Root, path: &str, sources: &Vec<SourceFile>, diagnostics: &mut Vec<Diagnostic>)
    requires
        spans_ok(old(diagnostics)@),
    ensures
        spans_ok(final(diagnostics)@),
        final(diagnostics)@.len() >= old(diagnostics)@.len(),
        forall|i: int| 0 <= i < old(diagnostics)@.len() ==> #[trigger] final(diagnostics)@[i] == old(diagnostics)@[i],
        exists|ms: Seq<(Seq<char>, Seq<char>)>, ls: Seq<Vec<String>>, es: Seq<LowerError>, deps: Seq<(Seq<char>, Seq<char>, Seq<char>)>|
            #[trigger] resolved_diags(
                root.node(),
                path@,
                sources@,
                models(final(diagnostics)@).subrange(old(diagnostics)@.len() as int, final(diagnostics)@.len() as int),
                ms,
                ls,
                es,
                deps,
            ),
{
    let ghost d0 = diagnostics@;
    let ghost rn = root.node();
    let table = imports_table(sources);
    let missing = missing_imports(root, path, &table);
    let ghost ms = crate::ir::pairs_view(missing@);
    let mut i: usize = 0;
    while i < missing.len()
        invariant
            0 <= i <= missing@.len(),
            spans_ok(diagnostics@),
            diagnostics@.len() >= d0.len(),
            forall|k: int| 0 <= k < d0.len() ==> #[trigger] diagnostics@[k] == d0[k],
            ms == crate::ir::pairs_view(missing@),
            rn == root.node(),
            models(diagnostics@).subrange(d0.len() as int, diagnostics@.len() as int) == missing_diags(rn, path@, ms.take(i as int)),
        decreases missing@.len() - i,
    {
        let ghost before = diagnostics@;
        let mut m = String::new();
        m.append("import `");
        m.append(missing[i].0.as_str());
        m.append("` references `");
        m.append(missing[i].1.as_str());
        m.append("`, which does not exist");
        proof {
            reveal_strlit("import `");
            reveal_strlit("` references `");
            reveal_strlit("`, which does not exist");
            assert(m@ =~= missing_message(ms[i as int].0, ms[i as int].1));
        }
        let span = import_span(root, path, missing[i].1.as_str());
        push_diag(diagnostics, m, span);
        proof {
            lemma_models_push(d0, before, diagnostics@);
            assert(ms.take(i + 1) =~= ms.take(i as int).push(ms[i as int]));
            assert(missing_diags(rn, path@, ms.take(i + 1)) =~= missing_diags(rn, path@, ms.take(i as int)).push(
                error_model(missing_message(ms[i as int].0, ms[i as int].1), spec_import_span(rn, path@, ms[i as int].1)),
            ));
        }
        i = i + 1;
    }
    assert(ms.take(ms.len() as int) =~= ms);
    let ghost d1 = diagnostics@;
    let loops = import_loops(&table, path);
    let mut l: usize = 0;
    while l < loops.len()
        invariant
            0 <= l <= loops@.len(),
            spans_ok(diagnostics@),
            diagnostics@.len() >= d1.len(),
            d1.len() >= d0.len(),
            forall|k: int| 0 <= k < d1.len() ==> #[trigger] diagnostics@[k] == d1[k],
            rn == root.node(),
            models(diagnostics@).subrange(d1.len() as int, diagnostics@.len() as int) == loop_diags(rn, path@, loops@.take(l as int)),
        decreases loops@.len() - l,
    {
        let ghost before = diagnostics@;
        let chain = &loops[l];
        let ghost names = strs_view(chain@);
        let mut m = String::new();
        m.append("import loop: ");
        let ghost head = m@;
        let mut c: usize = 0;
        while c < chain.len()
            invariant
                0 <= c <= chain@.len(),
                names == strs_view(chain@),
                m@ == head + crate::ir::join_arrow(names.take(c as int)),
            decreases chain@.len() - c,
        {
            if c > 0 {
                m.append(" -> ");
            }
            m.append(chain[c].as_str());
            proof {
                reveal_strlit(" -> ");
                assert(names.take(c + 1).drop_last() =~= names.take(c as int));
                assert(names.take(c + 1).last() == chain@[c as int]@);
                if c == 0 {
                    assert(names.take(1) =~= seq![chain@[0]@]);
                }
                assert(m@ =~= head + crate::ir::join_arrow(names.take(c + 1)));
            }
            c = c + 1;
        }
        proof {
            reveal_strlit("import loop: ");
            assert(names.take(names.len() as int) =~= names);
            assert(m@ =~= loop_message(names));
        }
        let span = if chain.len() > 1 { import_span(root, path, chain[1].as_str()) } else { empty_span() };
        proof {
            if chain@.len() > 1 {
                assert(names[1] == chain@[1]@);
            }
        }
        push_diag(diagnostics, m, span);
        proof {
            lemma_models_push(d1, before, diagnostics@);
            assert(loops@.take(l + 1) =~= loops@.take(l as int).push(loops@[l as int]));
            assert(loop_diags(rn, path@, loops@.take(l + 1)) =~= loop_diags(rn, path@, loops@.take(l as int)).push(
                error_model(loop_message(names), loop_span(rn, path@, names)),
            ));
        }
        l = l + 1;
    }
    assert(loops@.take(loops@.len() as int) =~= loops@);
    let ghost d2 = diagnostics@;
    let (workflow, template_errors) = lower_with_path_partial(root, path, sources);
    let mut e: usize = 0;
    while e < template_errors.len()
        invariant
            0 <= e <= template_errors@.len(),
            spans_ok(diagnostics@),
            diagnostics@.len() >= d2.len(),
            d2.len() >= d1.len(),
            d1.len() >= d0.len(),
            forall|k: int| 0 <= k < d2.len() ==> #[trigger] diagnostics@[k] == d2[k],
            rn == root.node(),
            models(diagnostics@).subrange(d2.len() as int, diagnostics@.len() as int) == lower_diags(rn, path@, template_errors@.take(e as int)),
        decreases template_errors@.len() - e,
    {
        let ghost before = diagnostics@;
        let err = &template_errors[e];
        let span = match &err.site {
            ErrorSite::InheritRef(reference) => inherit_ref_span(root, reference.as_str()),
            ErrorSite::Import(file) => import_span(root, path, file.as_str()),
            ErrorSite::StepRef { stage, job, step } => step_ref_span(root, stage.as_str(), job.as_str(), step.as_str()),
            ErrorSite::TemplateStepRef { stage, template, step } => template_step_span(root, stage, template.as_str(), step.as_str()),
        };
        assert(span_pair(span) == site_span(rn, path@, err.site));
        let msg = err.message.clone();
        assert(msg@ == err.message@);
        push_diag(diagnostics, msg, span);
        proof {
            lemma_models_push(d2, before, diagnostics@);
            assert(template_errors@.take(e + 1) =~= template_errors@.take(e as int).push(template_errors@[e as int]));
            assert(lower_diags(rn, path@, template_errors@.take(e + 1)) =~= lower_diags(rn, path@, template_errors@.take(e as int)).push(
                error_model(err.message@, site_span(rn, path@, err.site)),
            ));
        }
        e = e + 1;
    }
    assert(template_errors@.take(template_errors@.len() as int) =~= template_errors@);
    let ghost d3 = diagnostics@;
    let deps = dependency_errors(&workflow);
    let ghost dv = crate::ir::dep_errors_view(deps@);
    let mut d: usize = 0;
    while d < deps.len()
        invariant
            0 <= d <= deps@.len(),
            spans_ok(diagnostics@),
            diagnostics@.len() >= d3.len(),
            d3.len() >= d2.len(),
            d2.len() >= d1.len(),
            d1.len() >= d0.len(),
            forall|k: int| 0 <= k < d3.len() ==> #[trigger] diagnostics@[k] == d3[k],
            rn == root.node(),
            dv == crate::ir::dep_errors_view(deps@),
            models(diagnostics@).subrange(d3.len() as int, diagnostics@.len() as int) == dep_diags(rn, dv.take(d as int)),
        decreases deps@.len() - d,
    {
        let ghost before = diagnostics@;
        let span = job_dependency_span(root, deps[d].stage.as_str(), deps[d].job.as_str());
        let msg = deps[d].message.clone();
        assert(msg@ == deps@[d as int].message@);
        push_diag(diagnostics, msg, span);
        proof {
            lemma_models_push(d3, before, diagnostics@);
            assert(dv[d as int] == (deps@[d as int].stage@, deps@[d as int].job@, deps@[d as int].message@));
            assert(dv.take(d + 1) =~= dv.take(d as int).push(dv[d as int]));
            assert(dep_diags(rn, dv.take(d + 1)) =~= dep_diags(rn, dv.take(d as int)).push(
                error_model(dv[d as int].2, spec_job_dependency_span(rn, dv[d as int].0, dv[d as int].1)),
            ));
        }
        d = d + 1;
    }
    proof {
        assert(dv.take(dv.len() as int) =~= dv);
        let all = models(diagnostics@);
        let n0 = d0.len() as int;
        let n1 = d1.len() as int;
        let n2 = d2.len() as int;
        let n3 = d3.len() as int;
        let n4 = diagnostics@.len() as int;
        assert(models(d1).subrange(n0, n1) == missing_diags(rn, path@, ms));
        assert forall|k: int| 0 <= k < n3 implies #[trigger] all[k] == models(d3)[k] by {
            assert(diagnostics@[k] == d3[k]);
        }
        assert forall|k: int| 0 <= k < n2 implies #[trigger] models(d3)[k] == models(d2)[k] by {}
        assert forall|k: int| 0 <= k < n1 implies #[trigger] models(d2)[k] == models(d1)[k] by {}
        assert(all.subrange(n0, n1) =~= models(d1).subrange(n0, n1));
        assert(all.subrange(n1, n2) =~= models(d2).subrange(n1, n2));
        assert(all.subrange(n2, n3) =~= models(d3).subrange(n2, n3));
        assert(all.subrange(n0, n4) =~= all.subrange(n0, n1) + all.subrange(n1, n2) + all.subrange(n2, n3) + all.subrange(n3, n4));
        assert(tables_for(table@, sources@));
        assert(crate::lower::workflow_lowered(rn, workflow));
        assert(resolved_diags(rn, path@, sources@, all.subrange(n0, n4), ms, loops@, template_errors@, dv));
    }
}

/// Appending one diagnostic to `before`, which extends `base`, appends its
/// model to the models after `base`.
proof fn lemma_models_push(base: Seq<Diagnostic>, before: Seq<Diagnostic>, after: Seq<Diagnostic>)
    requires
        base.len() <= before.len(),
        after.len() == before.len() + 1,
        forall|k: int| 0 <= k < before.len() ==> #[trigger] after[k] == before[k],
    ensures
        models(after).subrange(base.len() as int, after.len() as int)
            == models(before).subrange(base.len() as int, before.len() as int).push(crate::validation::model(after.last())),
{
    assert(models(after).subrange(base.len() as int, after.len() as int)
        =~= models(before).subrange(base.len() as int, before.len() as int).push(crate::validation::model(after.last())));
}

/// The parse errors as error-level diagnostics.
pub open spec fn parse_diagnostic(e: ParseError, d: Diagnostic) -> bool {
    d.severity == Severity::Error && d.message@ == e.message@ && d.span == e.span
}

/// `errs` and `tree` are the errors and the tree of parsing `source`, and
/// `r` starts with the diagnostics of `errs`, in order, and goes on with
/// the validation diagnostics of `tree`. With parse errors nothing else
/// follows; without, the diagnostics of what the file at `path` refers to
/// among `sources`.
pub open spec fn checked_from(
    r: Seq<Diagnostic>,
    errs: Seq<ParseError>,
    tree: Node,
    source: Seq<char>,
    path: Seq<char>,
    sources: Seq<SourceFile>,
) -> bool {
    &&& crate::cst::node_text(tree) == source
    &&& parses_to(source, tree)
    &&& errors_view(errs) == parse_errors(source)
    &&& checked_tree(r, errs, tree, path, sources)
}

/// `r` are the diagnostics of the parse of the file at `path` with errors
/// `errs` and tree `tree`: the parse errors in order, then the validation
/// diagnostics of the tree, and, without parse errors, what checking its
/// references against `sources` finds.
pub open spec fn checked_tree(
    r: Seq<Diagnostic>,
    errs: Seq<ParseError>,
    tree: Node,
    path: Seq<char>,
    sources: Seq<SourceFile>,
) -> bool {
    let n = errs.len();
    let v = spec_validate(tree);
    &&& tree.kind == crate::syntax::SyntaxKind::Root
    &&& n + v.len() <= r.len()
    &&& forall|i: int| 0 <= i < n ==> parse_diagnostic(errs[i], #[trigger] r[i])
    &&& models(r.subrange(n as int, (n + v.len()) as int)) == v
    &&& n > 0 ==> r.len() == n + v.len()
    &&& n == 0 ==> exists|ms: Seq<(Seq<char>, Seq<char>)>, ls: Seq<Vec<String>>, es: Seq<LowerError>, deps: Seq<(Seq<char>, Seq<char>, Seq<char>)>|
        #[trigger] resolved_diags(tree, path, sources, models(r).subrange((n + v.len()) as int, r.len() as int), ms, ls, es, deps)
}

/// Parse and validate the file at `path`, whose text is `source`, and check
/// what it refers to against `sources`, the other files it may import.
///
/// The diagnostics start with the parse errors, in order, and go on with the
/// validation diagnostics of the tree. Without parse errors, what the file
/// refers to is checked after that: imports of files that don't exist,
/// import loops this file reports, references that can't be resolved, and
/// dependencies that can't be satisfied. Error recovery can leave jobs and
/// templates out of the tree, so with parse errors nothing else follows.
pub fn diagnostics(path: &str, source: &str, sources: &Vec<SourceFile>) -> (r: Vec<Diagnostic>)
    ensures
        exists|errs: Seq<ParseError>, tree: Node| #[trigger] checked_from(r@, errs, tree, source@, path@, sources@),
{
    let result = parse(source);
    let r = parsed_diagnostics(path, &result, sources);
    assert(checked_from(r@, result.error_list(), result.tree(), source@, path@, sources@));
    r
}

/// The diagnostics of the file at `path`, parsed as `result`, as
/// `diagnostics` lists them: the parse errors, in order, and then, for a
/// parsed file, the rest that `checked_tree` describes.
pub fn parsed_diagnostics(path: &str, result: &Parse, sources: &Vec<SourceFile>) -> (r: Vec<Diagnostic>)
    ensures
        result.tree().kind == crate::syntax::SyntaxKind::Root ==> checked_tree(r@, result.error_list(), result.tree(), path@, sources@),
        result.tree().kind != crate::syntax::SyntaxKind::Root ==> r@.len() == result.error_list().len()
            && forall|i: int| 0 <= i < r@.len() ==> parse_diagnostic(result.error_list()[i], #[trigger] r@[i]),
{
    let errs = result.errors();
    let mut out: Vec<Diagnostic> = Vec::new();
    let mut i: usize = 0;
    while i < errs.len()
        invariant
            0 <= i <= errs@.len(),
            out@.len() == i,
            forall|j: int| 0 <= j < i ==> parse_diagnostic(errs@[j], #[trigger] out@[j]),
        decreases errs@.len() - i,
    {
        out.push(error_at(errs[i].message.clone(), errs[i].span.start..errs[i].span.end));
        i = i + 1;
    }
    let ghost n_parse = out@.len();
    let ghost tree = result.tree();
    match Root::cast(result.syntax()) {
        Some(root) => {
            let v = validate(&root);
            let ghost vm = models(v@);
            let mut k: usize = 0;
            while k < v.len()
                invariant
                    0 <= k <= v@.len(),
                    n_parse == errs@.len(),
                    out@.len() == n_parse + k,
                    vm == models(v@),
                    forall|j: int| 0 <= j < n_parse ==> parse_diagnostic(errs@[j], #[trigger] out@[j]),
                    models(out@.subrange(n_parse as int, n_parse + k)) == vm.take(k as int),
                decreases v@.len() - k,
            {
                let ghost o0 = out@;
                out.push(Diagnostic { severity: v[k].severity, message: v[k].message.clone(), span: v[k].span.start..v[k].span.end });
                proof {
                    assert(out@.subrange(n_parse as int, n_parse + k + 1) =~= o0.subrange(n_parse as int, n_parse + k).push(out@.last()));
                    assert(vm.take(k + 1) =~= vm.take(k as int).push(vm[k as int]));
                    assert(models(out@.subrange(n_parse as int, n_parse + k + 1))
                        =~= models(o0.subrange(n_parse as int, n_parse + k)).push(crate::validation::model(out@.last())));
                }
                k = k + 1;
            }
            proof {
                assert(vm.take(v@.len() as int) =~= vm);
            }
            let ghost n_valid = out@.len();
            let ghost o_valid = out@;
            if errs.len() == 0 {
                let mut more: Vec<Diagnostic> = Vec::new();
                check_resolved_workflow(&root, path, sources, &mut more);
                let ghost mm = models(more@);
                let mut m: usize = 0;
                while m < more.len()
                    invariant
                        0 <= m <= more@.len(),
                        out@.len() == n_valid + m,
                        n_valid == n_parse + v@.len(),
                        o_valid.len() == n_valid,
                        mm == models(more@),
                        forall|j: int| 0 <= j < n_valid ==> #[trigger] out@[j] == o_valid[j],
                        models(out@).subrange(n_valid as int, out@.len() as int) == mm.take(m as int),
                    decreases more@.len() - m,
                {
                    let ghost before = out@;
                    out.push(Diagnostic { severity: more[m].severity, message: more[m].message.clone(), span: more[m].span.start..more[m].span.end });
                    proof {
                        assert(mm[m as int] == crate::validation::model(more@[m as int]));
                        assert(mm.take(m + 1) =~= mm.take(m as int).push(mm[m as int]));
                        assert(models(out@).subrange(n_valid as int, out@.len() as int)
                            =~= models(before).subrange(n_valid as int, before.len() as int).push(crate::validation::model(out@.last())));
                    }
                    m = m + 1;
                }
                proof {
                    assert(mm.take(mm.len() as int) =~= mm);
                    assert(models(more@).subrange(0, more@.len() as int) =~= mm);
                }
            }
            proof {
                assert(out@.subrange(n_parse as int, n_valid as int) =~= o_valid.subrange(n_parse as int, n_valid as int));
                assert forall|i: int| 0 <= i < n_parse implies parse_diagnostic(errs@[i], #[trigger] out@[i]) by {
                    assert(out@[i] == o_valid[i]);
                }
                assert(checked_tree(out@, errs@, tree, path@, sources@));
            }
        },
        None => {},
    }
    out
}

/// `true` if any of `diags` is an error.
pub fn has_errors(diags: &Vec<Diagnostic>) -> (r: bool)
    ensures
        r == exists|i: int| 0 <= i < diags@.len() && #[trigger] diags@[i].severity == Severity::Error,
{
    let mut i: usize = 0;
    while i < diags.len()
        invariant
            0 <= i <= diags@.len(),
            forall|j: int| 0 <= j < i ==> #[trigger] diags@[j].severity != Severity::Error,
        decreases diags@.len() - i,
    {
        if diags[i].severity == Severity::Error {
            return true;
        }
        i = i + 1;
    }
    false
}

/// Check the file at `path`, whose text is `source`: its diagnostics, to be
/// shown, and whether it passed, which it does when none of them is an
/// error (warnings are allowed).
pub fn run(path: &str, source: &str, sources: &Vec<SourceFile>) -> (r: (Vec<Diagnostic>, Result<(), String>))
    ensures
        exists|errs: Seq<ParseError>, tree: Node| #[trigger] checked_from(r.0@, errs, tree, source@, path@, sources@),
        r.1 is Err <==> exists|i: int| 0 <= i < r.0@.len() && #[trigger] r.0@[i].severity == Severity::Error,
        r.1 matches Err(m) ==> m@ == "found errors in "@ + path@,
{
    let diags = diagnostics(path, source, sources);
    if has_errors(&diags) {
        let mut m = String::new();
        m.append("found errors in ");
        m.append(path);
        proof {
            reveal_strlit("found errors in ");
        }
        (diags, Err(m))
    } else {
        (diags, Ok(()))
    }
}

} // verus!

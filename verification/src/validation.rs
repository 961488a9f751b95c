use vstd::prelude::*;

use crate::ast::{
    AstNode, Attr, HasAttrList, HasName, JobBodySteps, Root, Stage, TemplateDef, UseDecl, WorkflowBody, WorkflowDef,
    attr_list_of, name_of, seq_path, solid_tokens, spec_attr_list, spec_attr_scalar, spec_attr_value, spec_bare_text,
    spec_find_attr, spec_key_text, spec_name, spec_ref_text, spec_root_items, spec_stage_job, spec_value_text,
};
use crate::cst::{spec_child_node, spec_child_nodes, spec_child_token};
use crate::cst::{Element, Node, Token};
use crate::ir::strs_view;
use crate::parser::ParseError;
use crate::syntax::SyntaxKind;
use crate::text::{cat, contains_char, contains_slice_str, contains_str, find_char, spec_split_once, split_once, str_eq};

verus! {

/// Severity level of a diagnostic message.
#[derive(Debug, Clone, Copy, PartialEq, Eq, Structural)]
pub enum Severity {
    Error,
    Warning,
}

/// A structured diagnostic produced by the parser or the validator.
#[derive(Debug)]
pub struct Diagnostic {
    pub severity: Severity,
    pub message: String,
    /// The characters `start..end` of the source the diagnostic points at.
    ///
    /// Offsets count characters (Unicode scalar values), not UTF-8 bytes.
    pub span: std::ops::Range<usize>,
}

impl Diagnostic {
    /// The error-level diagnostic for a parse error.
    pub fn from_parse_error(e: ParseError) -> (d: Diagnostic)
        ensures
            d.severity == Severity::Error,
            d.message@ == e.message@,
            d.span == e.span,
    {
        Diagnostic { severity: Severity::Error, message: e.message, span: e.span }
    }
}

// ─── what validation reports ─────────────────────────────────────────────────

/// What a diagnostic says: its severity, its message, and the first and the
/// past-the-end character it points at.
pub type DiagModel = (Severity, Seq<char>, usize, usize);

pub open spec fn model(d: Diagnostic) -> DiagModel {
    (d.severity, d.message@, d.span.start, d.span.end)
}

pub open spec fn models(ds: Seq<Diagnostic>) -> Seq<DiagModel> {
    ds.map_values(|d: Diagnostic| model(d))
}

pub open spec fn spans_ok(d: Seq<Diagnostic>) -> bool {
    forall|i: int| 0 <= i < d.len() ==> d[i].span.start <= d[i].span.end
}

/// The characters a node covers, as a diagnostic points at them.
pub open spec fn spec_span(n: Node) -> (usize, usize) {
    (n.start, if n.start <= n.end { n.end } else { n.start })
}

/// The characters from a node's first to its last non-trivia token, or the
/// whole node where it has none.
pub open spec fn spec_span_without_trivia(n: Node) -> (usize, usize) {
    let ts = solid_tokens(n.children@, n.children@.len() as int);
    if ts.len() == 0 {
        spec_span(n)
    } else {
        let end = ts.last().start + ts.last().text@.len();
        if end <= usize::MAX && ts[0].start <= end {
            (ts[0].start, end as usize)
        } else {
            spec_span(n)
        }
    }
}

pub open spec fn diag_at(severity: Severity, message: Seq<char>, span: (usize, usize)) -> DiagModel {
    (severity, message, span.0, span.1)
}

pub open spec fn error_at(message: Seq<char>, span: (usize, usize)) -> DiagModel {
    diag_at(Severity::Error, message, span)
}

/// The diagnostics `f` reports for each of `s`, in order.
pub open spec fn each<A>(s: Seq<A>, f: spec_fn(A) -> Seq<DiagModel>) -> Seq<DiagModel>
    decreases s.len(),
{
    if s.len() == 0 {
        Seq::empty()
    } else {
        each(s.drop_last(), f) + f(s.last())
    }
}

pub proof fn lemma_each_step<A>(s: Seq<A>, f: spec_fn(A) -> Seq<DiagModel>, i: int)
    requires
        0 <= i < s.len(),
    ensures
        each(s.take(i + 1), f) == each(s.take(i), f) + f(s[i]),
{
    assert(s.take(i + 1).drop_last() =~= s.take(i));
}

pub proof fn lemma_each_whole<A>(s: Seq<A>, f: spec_fn(A) -> Seq<DiagModel>)
    ensures
        each(s.take(s.len() as int), f) == each(s, f),
{
    assert(s.take(s.len() as int) =~= s);
}

/// The names of those of `items` that have one, in order.
pub open spec fn names_of(items: Seq<Node>) -> Seq<Seq<char>>
    decreases items.len(),
{
    if items.len() == 0 {
        Seq::empty()
    } else {
        let rest = names_of(items.drop_last());
        match spec_name(items.last()) {
            Some(n) => rest.push(n),
            None => rest,
        }
    }
}

pub proof fn lemma_names_step(s: Seq<Node>, i: int)
    requires
        0 <= i < s.len(),
    ensures
        names_of(s.take(i + 1)) == match spec_name(s[i]) {
            Some(n) => names_of(s.take(i)).push(n),
            None => names_of(s.take(i)),
        },
{
    assert(s.take(i + 1).drop_last() =~= s.take(i));
}

/// The attributes of a node's attribute list.
pub open spec fn spec_attrs(n: Node) -> Seq<Node> {
    match spec_attr_list(n) {
        Some(al) => spec_child_nodes(al.children@, SyntaxKind::Attr),
        None => Seq::empty(),
    }
}

pub open spec fn strs(v: Seq<&str>) -> Seq<Seq<char>> {
    v.map_values(|k: &str| k@)
}

pub open spec fn quoted(k: Seq<char>) -> Seq<char> {
    "`"@ + k + "`"@
}

/// "`a`, `b`, `c`".
pub open spec fn spec_listed(keys: Seq<Seq<char>>) -> Seq<char>
    decreases keys.len(),
{
    if keys.len() == 0 {
        Seq::empty()
    } else if keys.len() == 1 {
        quoted(keys[0])
    } else {
        spec_listed(keys.drop_last()) + ", "@ + quoted(keys.last())
    }
}

pub open spec fn unknown_attr(a: Node, owner: Seq<char>, keys: Seq<Seq<char>>) -> Seq<DiagModel> {
    match spec_key_text(a) {
        Some(key) => if keys.contains(key) {
            Seq::empty()
        } else {
            seq![
                error_at(
                    "unknown attribute `"@ + key + "` on "@ + owner + "; valid attributes are "@ + spec_listed(keys),
                    spec_span(a),
                ),
            ]
        },
        None => Seq::empty(),
    }
}

pub open spec fn unknown_attr_f(owner: Seq<char>, keys: Seq<Seq<char>>) -> spec_fn(Node) -> Seq<DiagModel> {
    |a: Node| unknown_attr(a, owner, keys)
}

/// An error for each attribute of `n` whose key is not one of `keys`.
pub open spec fn spec_unknown_attrs(n: Node, owner: Seq<char>, keys: Seq<Seq<char>>) -> Seq<DiagModel> {
    each(spec_attrs(n), unknown_attr_f(owner, keys))
}

pub open spec fn workflow_keys() -> Seq<Seq<char>> {
    seq!["strategy"@]
}

pub open spec fn stage_keys() -> Seq<Seq<char>> {
    seq!["dependencies"@]
}

/// The keys a job or a template may have.
pub open spec fn job_keys() -> Seq<Seq<char>> {
    seq!["image"@, "inherit"@, "dependencies"@, "variables"@]
}

pub open spec fn import_keys() -> Seq<Seq<char>> {
    seq!["location"@, "name"@]
}

pub open spec fn use_keys() -> Seq<Seq<char>> {
    seq!["path"@]
}

pub open spec fn strategy_names() -> Seq<Seq<char>> {
    seq!["default_branch_and_reviews"@, "default_branch"@, "reviews"@, "none"@]
}

pub open spec fn strategy_attr(a: Node) -> Seq<DiagModel> {
    if spec_key_text(a) == Some("strategy"@) {
        match spec_value_text(a) {
            Some(v) => if strategy_names().contains(v) {
                Seq::empty()
            } else {
                seq![
                    error_at(
                        "invalid strategy `"@ + v
                            + "`; expected one of `default_branch_and_reviews`, `default_branch`, `reviews`, or `none`"@,
                        spec_span(a),
                    ),
                ]
            },
            None => Seq::empty(),
        }
    } else {
        Seq::empty()
    }
}

pub open spec fn strategy_attr_f() -> spec_fn(Node) -> Seq<DiagModel> {
    |a: Node| strategy_attr(a)
}

/// An error for `item` if it bears one of the names `prior`.
pub open spec fn duplicate_of(item: Node, prior: Seq<Seq<char>>, before: Seq<char>, after: Seq<char>) -> Seq<DiagModel> {
    match spec_name(item) {
        Some(n) => if prior.contains(n) {
            seq![error_at(before + n + after, spec_span(item))]
        } else {
            Seq::empty()
        },
        None => Seq::empty(),
    }
}

/// An error for each of `items` whose name an earlier one bears.
pub open spec fn duplicates(items: Seq<Node>, before: Seq<char>, after: Seq<char>) -> Seq<DiagModel>
    decreases items.len(),
{
    if items.len() == 0 {
        Seq::empty()
    } else {
        duplicates(items.drop_last(), before, after)
            + duplicate_of(items.last(), names_of(items.drop_last()), before, after)
    }
}

/// The names of the templates of a stage.
pub open spec fn stage_template_names(stage: Node) -> Seq<Seq<char>> {
    match spec_child_node(stage, SyntaxKind::StageBody) {
        Some(b) => names_of(spec_child_nodes(b.children@, SyntaxKind::TemplateDef)),
        None => Seq::empty(),
    }
}

/// For each named stage, its name and the names of its templates.
pub open spec fn stage_table(stages: Seq<Node>) -> Seq<(Seq<char>, Seq<Seq<char>>)>
    decreases stages.len(),
{
    if stages.len() == 0 {
        Seq::empty()
    } else {
        let rest = stage_table(stages.drop_last());
        match spec_name(stages.last()) {
            Some(n) => rest.push((n, stage_template_names(stages.last()))),
            None => rest,
        }
    }
}

/// The template names of the first stage of `table` from `i` on that is called `name`.
pub open spec fn lookup_from(table: Seq<(Seq<char>, Seq<Seq<char>>)>, name: Seq<char>, i: int) -> Option<Seq<Seq<char>>>
    decreases table.len() - i,
{
    if i < 0 || i >= table.len() {
        None
    } else if table[i].0 == name {
        Some(table[i].1)
    } else {
        lookup_from(table, name, i + 1)
    }
}

/// The diagnostic for one name an `inherit` attribute lists, if it names no
/// template that exists: `stage.name` is looked up in that stage, an
/// unqualified name among `unqualified`, and a name with a `/` in another file.
pub open spec fn inherit_name_diags(
    name: Seq<char>,
    owner: Seq<char>,
    scope: Seq<char>,
    severity: Severity,
    unqualified: Seq<Seq<char>>,
    table: Seq<(Seq<char>, Seq<Seq<char>>)>,
    span: (usize, usize),
) -> Seq<DiagModel> {
    if find_char(name, '/') < name.len() {
        Seq::empty()
    } else {
        match spec_split_once(name, '.') {
            Some((st, tp)) => match lookup_from(table, st, 0) {
                None => seq![
                    diag_at(severity, owner + " inherits from `"@ + name + "`, but there is no stage `"@ + st + "`"@, span),
                ],
                Some(ns) => if ns.contains(tp) {
                    Seq::empty()
                } else {
                    seq![
                        diag_at(
                            severity,
                            owner + " inherits from `"@ + name + "`, but stage `"@ + st + "` has no template `"@ + tp + "`"@,
                            span,
                        ),
                    ]
                },
            },
            None => if unqualified.contains(name) {
                Seq::empty()
            } else {
                seq![
                    diag_at(
                        severity,
                        owner + " inherits from `"@ + name + "`, but no template with that name is defined in "@ + scope,
                        span,
                    ),
                ]
            },
        }
    }
}

pub open spec fn inherit_name_f(
    owner: Seq<char>,
    scope: Seq<char>,
    severity: Severity,
    unqualified: Seq<Seq<char>>,
    table: Seq<(Seq<char>, Seq<Seq<char>>)>,
    span: (usize, usize),
) -> spec_fn(Seq<char>) -> Seq<DiagModel> {
    |name: Seq<char>| inherit_name_diags(name, owner, scope, severity, unqualified, table, span)
}

pub open spec fn inherit_attr(
    a: Node,
    owner: Seq<char>,
    scope: Seq<char>,
    severity: Severity,
    unqualified: Seq<Seq<char>>,
    table: Seq<(Seq<char>, Seq<Seq<char>>)>,
) -> Seq<DiagModel> {
    if spec_key_text(a) == Some("inherit"@) {
        each(spec_inherit_names(a), inherit_name_f(owner, scope, severity, unqualified, table, spec_span(a)))
    } else {
        Seq::empty()
    }
}

pub open spec fn inherit_attr_f(
    owner: Seq<char>,
    scope: Seq<char>,
    severity: Severity,
    unqualified: Seq<Seq<char>>,
    table: Seq<(Seq<char>, Seq<Seq<char>>)>,
) -> spec_fn(Node) -> Seq<DiagModel> {
    |a: Node| inherit_attr(a, owner, scope, severity, unqualified, table)
}

/// The diagnostics for the `inherit` attributes of a template.
pub open spec fn template_inherit(t: Node, unqualified: Seq<Seq<char>>, table: Seq<(Seq<char>, Seq<Seq<char>>)>) -> Seq<DiagModel> {
    each(spec_attrs(t), inherit_attr_f("template"@, "this scope"@, Severity::Error, unqualified, table))
}

pub open spec fn bare_step(step: Node, owner: Seq<char>) -> Seq<DiagModel> {
    if spec_child_token(step, SyntaxKind::ShellBody) is None {
        match spec_name(step) {
            Some(n) => seq![
                error_at(
                    "`step "@ + n + "` without a body can only be used in a "@ + owner + " that has an `inherit` attribute"@,
                    spec_span(step),
                ),
            ],
            None => Seq::empty(),
        }
    } else {
        Seq::empty()
    }
}

pub open spec fn bare_step_f(owner: Seq<char>) -> spec_fn(Node) -> Seq<DiagModel> {
    |s: Node| bare_step(s, owner)
}

/// Errors for a `steps` keyword and for bare step references in a body that
/// has nothing to inherit from.
pub open spec fn step_reuse(body: Node, owner: Seq<char>) -> Seq<DiagModel> {
    let kws = spec_child_nodes(body.children@, SyntaxKind::StepsKeyword);
    (if kws.len() > 0 {
        seq![
            error_at(
                "`steps` can only be used in a "@ + owner + " that has an `inherit` attribute"@,
                spec_span(kws[0]),
            ),
        ]
    } else {
        Seq::empty()
    }) + each(spec_child_nodes(body.children@, SyntaxKind::Step), bare_step_f(owner))
}

pub open spec fn template_steps(t: Node) -> Seq<DiagModel> {
    match spec_child_node(t, SyntaxKind::JobBodySteps) {
        Some(b) => if spec_find_attr(t, "inherit"@) is Some {
            Seq::empty()
        } else {
            step_reuse(b, "template"@)
        },
        None => Seq::empty(),
    }
}

/// The `inherit` and step checks of a job. An unknown template is a warning
/// for a step list, which may still define every step itself, and an error
/// for a `{ }` body, which would then inherit nothing at all.
pub open spec fn job_steps(j: Node, unqualified: Seq<Seq<char>>, table: Seq<(Seq<char>, Seq<Seq<char>>)>) -> Seq<DiagModel> {
    match spec_child_node(j, SyntaxKind::JobBodySteps) {
        Some(b) => if spec_find_attr(j, "inherit"@) is Some {
            each(
                spec_attrs(j),
                inherit_attr_f("job"@, "this stage or at the top level"@, Severity::Warning, unqualified, table),
            )
        } else {
            step_reuse(b, "job"@)
        },
        None => if spec_child_node(j, SyntaxKind::JobBodyInline) is Some {
            each(spec_attrs(j), inherit_attr_f("job"@, "this stage or at the top level"@, Severity::Error, unqualified, table))
        } else {
            Seq::empty()
        },
    }
}

pub open spec fn dependency_ref(r: Node) -> Seq<DiagModel> {
    if spec_stage_job(r) is None {
        seq![
            error_at(
                "dependency `"@ + spec_ref_text(r) + "` must be written as `stage.job`"@,
                spec_span_without_trivia(r),
            ),
        ]
    } else {
        Seq::empty()
    }
}

pub open spec fn dependency_ref_f() -> spec_fn(Node) -> Seq<DiagModel> {
    |r: Node| dependency_ref(r)
}

pub open spec fn dependencies_attr(a: Node) -> Seq<DiagModel> {
    if spec_key_text(a) == Some("dependencies"@) {
        match spec_attr_value(a) {
            Some(v) => match spec_child_node(v, SyntaxKind::RefList) {
                Some(rl) => each(spec_child_nodes(rl.children@, SyntaxKind::Ref), dependency_ref_f()),
                None => if spec_bare_text(v) is Some {
                    seq![error_at("`dependencies` must be a list of jobs, e.g. `[ stage.job ]`"@, spec_span(a))]
                } else {
                    Seq::empty()
                },
            },
            None => Seq::empty(),
        }
    } else {
        Seq::empty()
    }
}

pub open spec fn dependencies_attr_f() -> spec_fn(Node) -> Seq<DiagModel> {
    |a: Node| dependencies_attr(a)
}

/// The errors for the `dependencies` attributes of a node.
pub open spec fn spec_dependencies(n: Node) -> Seq<DiagModel> {
    each(spec_attrs(n), dependencies_attr_f())
}

/// What a template is checked for wherever it stands.
pub open spec fn template_diags(t: Node, unqualified: Seq<Seq<char>>, table: Seq<(Seq<char>, Seq<Seq<char>>)>) -> Seq<DiagModel> {
    spec_unknown_attrs(t, "template"@, job_keys()) + spec_dependencies(t) + template_inherit(t, unqualified, table)
        + template_steps(t)
}

pub open spec fn top_template_f(unqualified: Seq<Seq<char>>, table: Seq<(Seq<char>, Seq<Seq<char>>)>) -> spec_fn(Node) -> Seq<DiagModel> {
    |t: Node| template_diags(t, unqualified, table)
}

pub open spec fn job_diags(
    j: Node,
    prior: Seq<Seq<char>>,
    unqualified: Seq<Seq<char>>,
    table: Seq<(Seq<char>, Seq<Seq<char>>)>,
) -> Seq<DiagModel> {
    duplicate_of(j, prior, "duplicate job name `"@, "` in stage"@) + spec_unknown_attrs(j, "job"@, job_keys())
        + spec_dependencies(j) + job_steps(j, unqualified, table)
}

/// The diagnostics of the jobs of a stage.
pub open spec fn stage_jobs(jobs: Seq<Node>, unqualified: Seq<Seq<char>>, table: Seq<(Seq<char>, Seq<Seq<char>>)>) -> Seq<DiagModel>
    decreases jobs.len(),
{
    if jobs.len() == 0 {
        Seq::empty()
    } else {
        stage_jobs(jobs.drop_last(), unqualified, table) + job_diags(
            jobs.last(),
            names_of(jobs.drop_last()),
            unqualified,
            table,
        )
    }
}

/// The diagnostics of the templates of a stage whose jobs are called `job_names`.
pub open spec fn stage_template_diags(
    tmpls: Seq<Node>,
    job_names: Seq<Seq<char>>,
    unqualified: Seq<Seq<char>>,
    table: Seq<(Seq<char>, Seq<Seq<char>>)>,
) -> Seq<DiagModel>
    decreases tmpls.len(),
{
    if tmpls.len() == 0 {
        Seq::empty()
    } else {
        stage_template_diags(tmpls.drop_last(), job_names, unqualified, table) + duplicate_of(
            tmpls.last(),
            job_names + names_of(tmpls.drop_last()),
            "duplicate name `"@,
            "` in stage"@,
        ) + template_diags(tmpls.last(), unqualified, table)
    }
}

/// The templates a stage's items may name without a prefix: its own, then
/// the workflow's top-level ones.
pub open spec fn stage_scope(s: Node, top_level: Seq<Seq<char>>, table: Seq<(Seq<char>, Seq<Seq<char>>)>) -> Seq<Seq<char>> {
    (match spec_name(s) {
        Some(n) => match lookup_from(table, n, 0) {
            Some(ns) => ns,
            None => Seq::empty(),
        },
        None => Seq::empty(),
    }) + top_level
}

pub open spec fn stage_diags(s: Node, top_level: Seq<Seq<char>>, table: Seq<(Seq<char>, Seq<Seq<char>>)>) -> Seq<DiagModel> {
    spec_unknown_attrs(s, "stage"@, stage_keys()) + spec_dependencies(s) + match spec_child_node(s, SyntaxKind::StageBody) {
        Some(b) => {
            let scope = stage_scope(s, top_level, table);
            let jobs = spec_child_nodes(b.children@, SyntaxKind::Job);
            stage_jobs(jobs, scope, table) + stage_template_diags(
                spec_child_nodes(b.children@, SyntaxKind::TemplateDef),
                names_of(jobs),
                scope,
                table,
            )
        },
        None => Seq::empty(),
    }
}

pub open spec fn stage_f(top_level: Seq<Seq<char>>, table: Seq<(Seq<char>, Seq<Seq<char>>)>) -> spec_fn(Node) -> Seq<DiagModel> {
    |s: Node| stage_diags(s, top_level, table)
}

pub open spec fn workflow_body_diags(b: Node) -> Seq<DiagModel> {
    let stages = spec_child_nodes(b.children@, SyntaxKind::Stage);
    let tmpls = spec_child_nodes(b.children@, SyntaxKind::TemplateDef);
    let top_level = names_of(tmpls);
    let table = stage_table(stages);
    duplicates(stages, "duplicate stage name `"@, "`"@) + duplicates(tmpls, "duplicate top-level template name `"@, "`"@)
        + each(tmpls, top_template_f(top_level, table)) + each(stages, stage_f(top_level, table))
}

pub open spec fn workflow_diags(w: Node) -> Seq<DiagModel> {
    spec_unknown_attrs(w, "workflow"@, workflow_keys()) + each(spec_attrs(w), strategy_attr_f()) + match spec_child_node(
        w,
        SyntaxKind::WorkflowBody,
    ) {
        Some(b) => workflow_body_diags(b),
        None => Seq::empty(),
    }
}

pub open spec fn workflow_f() -> spec_fn(Node) -> Seq<DiagModel> {
    |w: Node| workflow_diags(w)
}

pub open spec fn import_diags(imp: Node) -> Seq<DiagModel> {
    spec_unknown_attrs(imp, "workflow import"@, import_keys()) + (if spec_find_attr(imp, "location"@) is None {
        seq![error_at("workflow import is missing the `location` attribute"@, spec_span(imp))]
    } else {
        Seq::empty()
    }) + (if spec_find_attr(imp, "name"@) is None {
        seq![error_at("workflow import is missing the `name` attribute"@, spec_span(imp))]
    } else {
        Seq::empty()
    })
}

pub open spec fn import_f() -> spec_fn(Node) -> Seq<DiagModel> {
    |imp: Node| import_diags(imp)
}

pub open spec fn use_decl_diags(d: Node) -> Seq<DiagModel> {
    if spec_child_token(d, SyntaxKind::LBrace) is Some {
        each(spec_child_nodes(d.children@, SyntaxKind::WorkflowImport), import_f())
    } else {
        spec_unknown_attrs(d, "use import"@, use_keys()) + if spec_attr_scalar(d, seq_path()) is None {
            seq![error_at("`use` import is missing the `path` attribute"@, spec_span(d))]
        } else {
            Seq::empty()
        }
    }
}

pub open spec fn use_decl_f() -> spec_fn(Node) -> Seq<DiagModel> {
    |d: Node| use_decl_diags(d)
}

/// Every diagnostic the validator reports for a file: those of each workflow,
/// then those of each `use` declaration in a workflow body.
pub open spec fn spec_validate(root: Node) -> Seq<DiagModel> {
    each(spec_child_nodes(root.children@, SyntaxKind::WorkflowDef), workflow_f()) + each(
        spec_root_items(root, SyntaxKind::UseDecl),
        use_decl_f(),
    )
}

/// The texts of the references `refs`.
pub open spec fn ref_texts(refs: Seq<Node>) -> Seq<Seq<char>> {
    refs.map_values(|r: Node| spec_ref_text(r))
}

/// The template names an `inherit` attribute lists: its scalar value, or the
/// references of its list.
pub open spec fn spec_inherit_names(attr: Node) -> Seq<Seq<char>> {
    match spec_value_text(attr) {
        Some(v) => seq![v],
        None => match spec_attr_value(attr) {
            Some(av) => match spec_child_node(av, SyntaxKind::RefList) {
                Some(rl) => ref_texts(spec_child_nodes(rl.children@, SyntaxKind::Ref)),
                None => Seq::empty(),
            },
            None => Seq::empty(),
        },
    }
}

/// The template names an `inherit` attribute lists.
pub fn inherit_names_from_attr(attr: &Attr) -> (r: Vec<String>)
    ensures
        strs_view(r@) == spec_inherit_names(attr.node()),
{
    match attr.value_text() {
        Some(v) => {
            let mut r = Vec::new();
            r.push(v);
            assert(strs_view(r@) =~= spec_inherit_names(attr.node()));
            r
        },
        None => {
            let mut r: Vec<String> = Vec::new();
            match attr.value() {
                Some(av) => match av.ref_list() {
                    Some(rl) => {
                        let refs = rl.refs();
                        let ghost sr = spec_child_nodes(rl.node().children@, SyntaxKind::Ref);
                        let mut i: usize = 0;
                        while i < refs.len()
                            invariant
                                0 <= i <= refs@.len(),
                                refs@.len() == sr.len(),
                                forall|j: int| 0 <= j < refs@.len() ==> #[trigger] refs@[j].node() == sr[j],
                                strs_view(r@) == ref_texts(sr.take(i as int)),
                            decreases refs@.len() - i,
                        {
                            let ghost before = strs_view(r@);
                            r.push(refs[i].text());
                            assert(refs@[i as int].node() == sr[i as int]);
                            assert(ref_texts(sr.take(i + 1)) =~= ref_texts(sr.take(i as int)).push(spec_ref_text(sr[i as int])));
                            assert(strs_view(r@) =~= before.push(r@.last()@));
                            i = i + 1;
                        }
                        assert(sr.take(sr.len() as int) =~= sr);
                    },
                    None => {
                        assert(strs_view(r@) =~= Seq::empty());
                    },
                },
                None => {
                    assert(strs_view(r@) =~= Seq::empty());
                },
            }
            r
        },
    }
}

// ─── helpers ─────────────────────────────────────────────────────────────────

pub proof fn lemma_push_contains(a: Seq<Seq<char>>, v: Seq<char>, x: Seq<char>)
    ensures
        a.push(v).contains(x) == (a.contains(x) || x == v),
{
    if a.contains(x) {
        let k = choose|k: int| 0 <= k < a.len() && a[k] == x;
        assert(a.push(v)[k] == x);
    }
    if x == v {
        assert(a.push(v)[a.len() as int] == v);
    }
    if a.push(v).contains(x) {
        let k = choose|k: int| 0 <= k < a.push(v).len() && a.push(v)[k] == x;
        if k < a.len() {
            assert(a[k] == x);
        }
    }
}

/// `true` if `key` is one of `keys`.
fn key_listed(keys: &[&str], key: &str) -> (r: bool)
    ensures
        r == strs(keys@).contains(key@),
{
    let r = contains_slice_str(keys, key);
    proof {
        if r {
            let k = choose|k: int| 0 <= k < keys@.len() && #[trigger] keys@[k]@ == key@;
            assert(strs(keys@)[k] == key@);
        }
        if strs(keys@).contains(key@) {
            let k = choose|k: int| 0 <= k < strs(keys@).len() && strs(keys@)[k] == key@;
            assert(keys@[k]@ == key@);
        }
    }
    r
}

/// `true` if `s` is one of `v`.
fn name_in(v: &Vec<String>, s: &str) -> (r: bool)
    ensures
        r == strs_view(v@).contains(s@),
{
    let r = contains_str(v, s);
    proof {
        if r {
            let k = choose|k: int| 0 <= k < v@.len() && #[trigger] v@[k]@ == s@;
            assert(strs_view(v@)[k] == s@);
        }
        if strs_view(v@).contains(s@) {
            let k = choose|k: int| 0 <= k < strs_view(v@).len() && strs_view(v@)[k] == s@;
            assert(v@[k]@ == s@);
        }
    }
    r
}

fn push_diag(diagnostics: &mut Vec<Diagnostic>, severity: Severity, message: String, span: std::ops::Range<usize>)
    ensures
        models(final(diagnostics)@) == models(old(diagnostics)@).push((severity, message@, span.start, span.end)),
{
    let ghost before = diagnostics@;
    let ghost m = message@;
    diagnostics.push(Diagnostic { severity, message, span });
    assert(models(diagnostics@) =~= models(before).push((severity, m, span.start, span.end)));
}

/// The span of a node.
pub fn span_of(node: &Node) -> (r: std::ops::Range<usize>)
    ensures
        r.start == node.start,
        r.end == (if node.start <= node.end { node.end } else { node.start }),
        (r.start, r.end) == spec_span(*node),
{
    if node.start <= node.end {
        node.start..node.end
    } else {
        node.start..node.start
    }
}

/// The span of a node's non-trivia tokens, or of the node when it has none.
fn span_without_trivia(node: &Node) -> (r: std::ops::Range<usize>)
    ensures
        (r.start, r.end) == spec_span_without_trivia(*node),
{
    let es = &node.children;
    let mut first: Option<&Token> = None;
    let mut last: Option<&Token> = None;
    let mut i: usize = 0;
    while i < es.len()
        invariant
            0 <= i <= es@.len(),
            es@ == node.children@,
            (solid_tokens(es@, i as int).len() == 0) == (first is None),
            (solid_tokens(es@, i as int).len() == 0) == (last is None),
            first matches Some(f) ==> *f == solid_tokens(es@, i as int)[0],
            last matches Some(l) ==> *l == solid_tokens(es@, i as int).last(),
        decreases es@.len() - i,
    {
        let ghost before = solid_tokens(es@, i as int);
        match &es[i] {
            Element::Token(t) => {
                if !t.kind.is_trivia() {
                    if first.is_none() {
                        first = Some(t);
                    }
                    last = Some(t);
                    assert(solid_tokens(es@, i + 1) == before.push(*t));
                }
            },
            Element::Node(_) => {},
        }
        i = i + 1;
    }
    match (first, last) {
        (Some(f), Some(l)) => {
            let len = crate::builder::text_len(&l.text);
            if l.start <= usize::MAX - len && f.start <= l.start + len {
                f.start..(l.start + len)
            } else {
                span_of(node)
            }
        },
        _ => span_of(node),
    }
}

/// "`a`, `b`, `c`".
fn listed_keys(keys: &[&str]) -> (r: String)
    ensures
        r@ == spec_listed(strs(keys@)),
{
    let ghost ks = strs(keys@);
    let mut r = String::new();
    let mut i: usize = 0;
    while i < keys.len()
        invariant
            0 <= i <= keys@.len(),
            ks == strs(keys@),
            r@ == spec_listed(ks.take(i as int)),
        decreases keys@.len() - i,
    {
        let ghost before = r@;
        if i > 0 {
            r.append(", ");
        }
        r.append("`");
        r.append(keys[i]);
        r.append("`");
        proof {
            assert(ks.take(i + 1).drop_last() =~= ks.take(i as int));
            assert(ks[i as int] == keys@[i as int]@);
            if i == 0 {
                assert(r@ =~= quoted(ks.take(1)[0]));
            } else {
                assert(r@ =~= before + ", "@ + quoted(ks[i as int]));
            }
        }
        i = i + 1;
    }
    proof {
        assert(ks.take(keys@.len() as int) =~= ks);
    }
    r
}

// ─── the rules ───────────────────────────────────────────────────────────────

/// Run all static validation rules over a parsed `Root` node.
///
/// Returns the complete list of semantic diagnostics. Parse errors are
/// reported separately by the parser.
pub fn validate(root: &Root) -> (r: Vec<Diagnostic>)
    ensures
        models(r@) == spec_validate(root.node()),
{
    let mut diagnostics: Vec<Diagnostic> = Vec::new();
    check_root(root, &mut diagnostics);
    proof {
        assert(models(Seq::<Diagnostic>::empty()) =~= Seq::<DiagModel>::empty());
        assert(models(diagnostics@) =~= spec_validate(root.node()));
    }
    diagnostics
}

/// Report each attribute of `node` whose key is not one of `valid_keys`.
fn check_unknown_attrs(node: &Node, owner: &str, valid_keys: &[&str], diagnostics: &mut Vec<Diagnostic>)
    ensures
        models(final(diagnostics)@) == models(old(diagnostics)@) + spec_unknown_attrs(*node, owner@, strs(valid_keys@)),
{
    let ghost start = models(diagnostics@);
    let ghost f = unknown_attr_f(owner@, strs(valid_keys@));
    let al = match attr_list_of(node) {
        Some(al) => al,
        None => {
            assert(models(diagnostics@) =~= start + spec_unknown_attrs(*node, owner@, strs(valid_keys@)));
            return ;
        },
    };
    let attrs = al.attrs();
    let ghost sa = spec_child_nodes(al.node().children@, SyntaxKind::Attr);
    assert(sa == spec_attrs(*node));
    let mut i: usize = 0;
    while i < attrs.len()
        invariant
            0 <= i <= attrs@.len(),
            attrs@.len() == sa.len(),
            forall|j: int| 0 <= j < attrs@.len() ==> #[trigger] attrs@[j].node() == sa[j],
            f == unknown_attr_f(owner@, strs(valid_keys@)),
            models(diagnostics@) == start + each(sa.take(i as int), f),
        decreases attrs@.len() - i,
    {
        let attr = &attrs[i];
        let ghost before = models(diagnostics@);
        assert(attr.node() == sa[i as int]);
        match attr.key_text() {
            None => {},
            Some(key) => {
                if !key_listed(valid_keys, key.as_str()) {
                    let listed = listed_keys(valid_keys);
                    let message = cat(
                        &[
                            "unknown attribute `",
                            key.as_str(),
                            "` on ",
                            owner,
                            "; valid attributes are ",
                            listed.as_str(),
                        ],
                    );
                    proof {
                        reveal_with_fuel(crate::text::concat_all, 7);
                    }
                    push_diag(diagnostics, Severity::Error, message, span_of(attr.syntax()));
                }
            },
        }
        proof {
            lemma_each_step(sa, f, i as int);
            assert(models(diagnostics@) =~= before + unknown_attr(sa[i as int], owner@, strs(valid_keys@)));
            assert(models(diagnostics@) =~= start + each(sa.take(i + 1), f));
        }
        i = i + 1;
    }
    proof {
        lemma_each_whole(sa, f);
    }
}

/// Collect all semantic diagnostics from a parsed `Root` node.
fn check_root(root: &Root, diagnostics: &mut Vec<Diagnostic>)
    ensures
        models(final(diagnostics)@) == models(old(diagnostics)@) + spec_validate(root.node()),
{
    let ghost start = models(diagnostics@);
    let defs = root.workflow_defs();
    let ghost sd = spec_child_nodes(root.node().children@, SyntaxKind::WorkflowDef);
    let mut i: usize = 0;
    while i < defs.len()
        invariant
            0 <= i <= defs@.len(),
            defs@.len() == sd.len(),
            forall|j: int| 0 <= j < defs@.len() ==> #[trigger] defs@[j].node() == sd[j],
            models(diagnostics@) == start + each(sd.take(i as int), workflow_f()),
        decreases defs@.len() - i,
    {
        let ghost before = models(diagnostics@);
        check_workflow_def(&defs[i], diagnostics);
        proof {
            lemma_each_step(sd, workflow_f(), i as int);
            assert(models(diagnostics@) =~= start + each(sd.take(i + 1), workflow_f()));
        }
        i = i + 1;
    }
    proof {
        lemma_each_whole(sd, workflow_f());
    }
    let ghost mid = models(diagnostics@);
    let uses = root.use_decls();
    let ghost su = spec_root_items(root.node(), SyntaxKind::UseDecl);
    let mut j: usize = 0;
    while j < uses.len()
        invariant
            0 <= j <= uses@.len(),
            uses@.len() == su.len(),
            forall|k: int| 0 <= k < uses@.len() ==> #[trigger] uses@[k].node() == su[k],
            models(diagnostics@) == mid + each(su.take(j as int), use_decl_f()),
        decreases uses@.len() - j,
    {
        check_use_decl_attrs(&uses[j], diagnostics);
        proof {
            lemma_each_step(su, use_decl_f(), j as int);
            assert(models(diagnostics@) =~= mid + each(su.take(j + 1), use_decl_f()));
        }
        j = j + 1;
    }
    proof {
        lemma_each_whole(su, use_decl_f());
        assert(models(diagnostics@) =~= start + spec_validate(root.node()));
    }
}

/// The names of the templates `tmpls`, skipping unnamed ones.
fn template_names(tmpls: &Vec<TemplateDef>, Ghost(s): Ghost<Seq<Node>>) -> (r: Vec<String>)
    requires
        tmpls@.len() == s.len(),
        forall|j: int| 0 <= j < tmpls@.len() ==> #[trigger] tmpls@[j].node() == s[j],
    ensures
        strs_view(r@) == names_of(s),
{
    let mut r: Vec<String> = Vec::new();
    let mut i: usize = 0;
    while i < tmpls.len()
        invariant
            0 <= i <= tmpls@.len(),
            tmpls@.len() == s.len(),
            forall|j: int| 0 <= j < tmpls@.len() ==> #[trigger] tmpls@[j].node() == s[j],
            strs_view(r@) == names_of(s.take(i as int)),
        decreases tmpls@.len() - i,
    {
        let ghost before = r@;
        proof {
            lemma_names_step(s, i as int);
        }
        assert(tmpls@[i as int].node() == s[i as int]);
        match tmpls[i].name() {
            Some(n) => {
                r.push(n);
                assert(strs_view(r@) =~= strs_view(before).push(r@.last()@));
            },
            None => {},
        }
        i = i + 1;
    }
    proof {
        assert(s.take(s.len() as int) =~= s);
    }
    r
}

pub open spec fn table_view(t: Seq<(String, Vec<String>)>) -> Seq<(Seq<char>, Seq<Seq<char>>)> {
    t.map_values(|e: (String, Vec<String>)| (e.0@, strs_view(e.1@)))
}

/// For every named stage of a workflow body, the names of its templates.
fn stage_template_table(body: &WorkflowBody) -> (r: Vec<(String, Vec<String>)>)
    ensures
        table_view(r@) == stage_table(spec_child_nodes(body.node().children@, SyntaxKind::Stage)),
{
    let stages = body.stages();
    let ghost ss = spec_child_nodes(body.node().children@, SyntaxKind::Stage);
    let mut r: Vec<(String, Vec<String>)> = Vec::new();
    let mut i: usize = 0;
    while i < stages.len()
        invariant
            0 <= i <= stages@.len(),
            stages@.len() == ss.len(),
            forall|j: int| 0 <= j < stages@.len() ==> #[trigger] stages@[j].node() == ss[j],
            table_view(r@) == stage_table(ss.take(i as int)),
        decreases stages@.len() - i,
    {
        let ghost before = r@;
        assert(stages@[i as int].node() == ss[i as int]);
        assert(ss.take(i + 1).drop_last() =~= ss.take(i as int));
        match stages[i].name() {
            Some(n) => {
                let names = match stages[i].body() {
                    Some(b) => {
                        let ts = b.templates();
                        template_names(&ts, Ghost(spec_child_nodes(b.node().children@, SyntaxKind::TemplateDef)))
                    },
                    None => Vec::new(),
                };
                assert(strs_view(names@) =~= stage_template_names(ss[i as int]));
                r.push((n, names));
                assert(table_view(r@) =~= table_view(before).push((r@.last().0@, strs_view(r@.last().1@))));
            },
            None => {},
        }
        i = i + 1;
    }
    proof {
        assert(ss.take(ss.len() as int) =~= ss);
    }
    r
}

/// The template names of the first stage called `stage_name` in the table.
fn lookup_stage<'t>(table: &'t Vec<(String, Vec<String>)>, stage_name: &str) -> (r: Option<&'t Vec<String>>)
    ensures
        r matches Some(v) ==> lookup_from(table_view(table@), stage_name@, 0) == Some(strs_view(v@)),
        r is None ==> lookup_from(table_view(table@), stage_name@, 0) is None,
{
    let ghost tv = table_view(table@);
    let mut i: usize = 0;
    while i < table.len()
        invariant
            0 <= i <= table@.len(),
            tv == table_view(table@),
            lookup_from(tv, stage_name@, 0) == lookup_from(tv, stage_name@, i as int),
        decreases table@.len() - i,
    {
        assert(tv[i as int] == (table@[i as int].0@, strs_view(table@[i as int].1@)));
        if str_eq(table[i].0.as_str(), stage_name) {
            return Some(&table[i].1);
        }
        i = i + 1;
    }
    None
}

fn check_workflow_def(workflow: &WorkflowDef, diagnostics: &mut Vec<Diagnostic>)
    ensures
        models(final(diagnostics)@) == models(old(diagnostics)@) + workflow_diags(workflow.node()),
{
    let ghost start = models(diagnostics@);
    let keys: &[&str] = &["strategy"];
    assert(strs(keys@) =~= workflow_keys());
    check_unknown_attrs(workflow.syntax(), "workflow", keys, diagnostics);
    check_workflow_strategy(workflow, diagnostics);
    let ghost mid = models(diagnostics@);
    match workflow.body() {
        Some(b) => {
            check_workflow_body(&b, diagnostics);
        },
        None => {
            assert(models(diagnostics@) =~= mid + Seq::empty());
        },
    }
    assert(models(diagnostics@) =~= start + workflow_diags(workflow.node()));
}

fn check_workflow_body(body: &WorkflowBody, diagnostics: &mut Vec<Diagnostic>)
    ensures
        models(final(diagnostics)@) == models(old(diagnostics)@) + workflow_body_diags(body.node()),
{
    let ghost start = models(diagnostics@);
    let ghost ss = spec_child_nodes(body.node().children@, SyntaxKind::Stage);
    let ghost st = spec_child_nodes(body.node().children@, SyntaxKind::TemplateDef);
    let stage_nodes = body.syntax().child_nodes(SyntaxKind::Stage);
    check_duplicates(&stage_nodes, Ghost(ss), "duplicate stage name `", "`", diagnostics);
    let template_nodes = body.syntax().child_nodes(SyntaxKind::TemplateDef);
    check_duplicates(&template_nodes, Ghost(st), "duplicate top-level template name `", "`", diagnostics);
    let ghost mid = models(diagnostics@);
    let tmpls = body.templates();
    let root_template_names = template_names(&tmpls, Ghost(st));
    let stage_templates = stage_template_table(body);
    let ghost top = names_of(st);
    let ghost table = stage_table(ss);
    let mut i: usize = 0;
    while i < tmpls.len()
        invariant
            0 <= i <= tmpls@.len(),
            tmpls@.len() == st.len(),
            forall|j: int| 0 <= j < tmpls@.len() ==> #[trigger] tmpls@[j].node() == st[j],
            strs_view(root_template_names@) == top,
            table_view(stage_templates@) == table,
            models(diagnostics@) == mid + each(st.take(i as int), top_template_f(top, table)),
        decreases tmpls@.len() - i,
    {
        check_template(&tmpls[i], &root_template_names, &stage_templates, diagnostics);
        proof {
            lemma_each_step(st, top_template_f(top, table), i as int);
            assert(models(diagnostics@) =~= mid + each(st.take(i + 1), top_template_f(top, table)));
        }
        i = i + 1;
    }
    proof {
        lemma_each_whole(st, top_template_f(top, table));
    }
    let ghost mid2 = models(diagnostics@);
    let stages = body.stages();
    let mut j: usize = 0;
    while j < stages.len()
        invariant
            0 <= j <= stages@.len(),
            stages@.len() == ss.len(),
            forall|k: int| 0 <= k < stages@.len() ==> #[trigger] stages@[k].node() == ss[k],
            strs_view(root_template_names@) == top,
            table_view(stage_templates@) == table,
            models(diagnostics@) == mid2 + each(ss.take(j as int), stage_f(top, table)),
        decreases stages@.len() - j,
    {
        check_stage(&stages[j], &root_template_names, &stage_templates, diagnostics);
        proof {
            lemma_each_step(ss, stage_f(top, table), j as int);
            assert(models(diagnostics@) =~= mid2 + each(ss.take(j + 1), stage_f(top, table)));
        }
        j = j + 1;
    }
    proof {
        lemma_each_whole(ss, stage_f(top, table));
        assert(models(diagnostics@) =~= start + workflow_body_diags(body.node()));
    }
}

fn check_workflow_strategy(workflow: &WorkflowDef, diagnostics: &mut Vec<Diagnostic>)
    ensures
        models(final(diagnostics)@) == models(old(diagnostics)@) + each(spec_attrs(workflow.node()), strategy_attr_f()),
{
    let ghost start = models(diagnostics@);
    let al = match workflow.attr_list() {
        Some(al) => al,
        None => {
            assert(models(diagnostics@) =~= start + each(spec_attrs(workflow.node()), strategy_attr_f()));
            return ;
        },
    };
    let attrs = al.attrs();
    let ghost sa = spec_child_nodes(al.node().children@, SyntaxKind::Attr);
    let valid: &[&str] = &["default_branch_and_reviews", "default_branch", "reviews", "none"];
    assert(strs(valid@) =~= strategy_names());
    let mut i: usize = 0;
    while i < attrs.len()
        invariant
            0 <= i <= attrs@.len(),
            attrs@.len() == sa.len(),
            forall|j: int| 0 <= j < attrs@.len() ==> #[trigger] attrs@[j].node() == sa[j],
            strs(valid@) == strategy_names(),
            models(diagnostics@) == start + each(sa.take(i as int), strategy_attr_f()),
        decreases attrs@.len() - i,
    {
        let attr = &attrs[i];
        let ghost before = models(diagnostics@);
        assert(attr.node() == sa[i as int]);
        if attr.has_key("strategy") {
            match attr.value_text() {
                Some(value) => {
                    if !key_listed(valid, value.as_str()) {
                        let message = cat(
                            &[
                                "invalid strategy `",
                                value.as_str(),
                                "`; expected one of `default_branch_and_reviews`, `default_branch`, `reviews`, or `none`",
                            ],
                        );
                        proof {
                            reveal_with_fuel(crate::text::concat_all, 4);
                        }
                        push_diag(diagnostics, Severity::Error, message, span_of(attr.syntax()));
                    }
                },
                None => {},
            }
        }
        proof {
            lemma_each_step(sa, strategy_attr_f(), i as int);
            assert(models(diagnostics@) =~= before + strategy_attr(sa[i as int]));
            assert(models(diagnostics@) =~= start + each(sa.take(i + 1), strategy_attr_f()));
        }
        i = i + 1;
    }
    proof {
        lemma_each_whole(sa, strategy_attr_f());
    }
}

/// Report `node` if one of the names `seen` is its name; otherwise note its name.
fn check_duplicate(
    node: &Node,
    seen: &mut Vec<String>,
    before: &str,
    after: &str,
    diagnostics: &mut Vec<Diagnostic>,
)
    ensures
        models(final(diagnostics)@) == models(old(diagnostics)@) + duplicate_of(*node, strs_view(old(seen)@), before@, after@),
        forall|x: Seq<char>| #[trigger] strs_view(final(seen)@).contains(x) == (strs_view(old(seen)@).contains(x)
            || spec_name(*node) == Some(x)),
{
    let ghost start = models(diagnostics@);
    let ghost seen0 = strs_view(seen@);
    match name_of(node) {
        Some(name) => {
            if name_in(seen, name.as_str()) {
                let message = cat(&[before, name.as_str(), after]);
                proof {
                    reveal_with_fuel(crate::text::concat_all, 4);
                }
                push_diag(diagnostics, Severity::Error, message, span_of(node));
                assert forall|x: Seq<char>| #[trigger] strs_view(seen@).contains(x) == (seen0.contains(x) || spec_name(*node) == Some(x)) by {
                    if spec_name(*node) == Some(x) {
                        assert(seen0.contains(name@));
                    }
                }
            } else {
                let ghost n = name@;
                seen.push(name);
                assert(strs_view(seen@) =~= seen0.push(n));
                assert forall|x: Seq<char>| #[trigger] strs_view(seen@).contains(x) == (seen0.contains(x) || spec_name(*node) == Some(x)) by {
                    lemma_push_contains(seen0, n, x);
                }
            }
        },
        None => {},
    }
    assert(models(diagnostics@) =~= start + duplicate_of(*node, seen0, before@, after@));
}

pub proof fn lemma_duplicates_step(s: Seq<Node>, i: int, before: Seq<char>, after: Seq<char>)
    requires
        0 <= i < s.len(),
    ensures
        duplicates(s.take(i + 1), before, after) == duplicates(s.take(i), before, after) + duplicate_of(
            s[i],
            names_of(s.take(i)),
            before,
            after,
        ),
{
    assert(s.take(i + 1).drop_last() =~= s.take(i));
}

/// Report each of `items` whose name an earlier one bears.
fn check_duplicates(
    items: &Vec<&Node>,
    Ghost(s): Ghost<Seq<Node>>,
    before: &str,
    after: &str,
    diagnostics: &mut Vec<Diagnostic>,
)
    requires
        items@.len() == s.len(),
        forall|j: int| 0 <= j < items@.len() ==> *items@[j] == s[j],
    ensures
        models(final(diagnostics)@) == models(old(diagnostics)@) + duplicates(s, before@, after@),
{
    let ghost start = models(diagnostics@);
    let mut seen: Vec<String> = Vec::new();
    let mut i: usize = 0;
    assert(strs_view(seen@) =~= Seq::empty());
    while i < items.len()
        invariant
            0 <= i <= items@.len(),
            items@.len() == s.len(),
            forall|j: int| 0 <= j < items@.len() ==> *items@[j] == s[j],
            forall|x: Seq<char>| #[trigger] strs_view(seen@).contains(x) == names_of(s.take(i as int)).contains(x),
            models(diagnostics@) == start + duplicates(s.take(i as int), before@, after@),
        decreases items@.len() - i,
    {
        let ghost seen0 = strs_view(seen@);
        let ghost d0 = models(diagnostics@);
        assert(*items@[i as int] == s[i as int]);
        check_duplicate(items[i], &mut seen, before, after, diagnostics);
        proof {
            lemma_duplicates_step(s, i as int, before@, after@);
            lemma_names_step(s, i as int);
            let prior = names_of(s.take(i as int));
            match spec_name(s[i as int]) {
                Some(n) => {
                    assert(seen0.contains(n) == prior.contains(n));
                    assert forall|x: Seq<char>| #[trigger] strs_view(seen@).contains(x) == names_of(s.take(i + 1)).contains(x) by {
                        lemma_push_contains(prior, n, x);
                        assert(seen0.contains(x) == prior.contains(x));
                    }
                },
                None => {
                    assert forall|x: Seq<char>| #[trigger] strs_view(seen@).contains(x) == names_of(s.take(i + 1)).contains(x) by {
                        assert(seen0.contains(x) == prior.contains(x));
                    }
                },
            }
            assert(duplicate_of(s[i as int], seen0, before@, after@) == duplicate_of(s[i as int], prior, before@, after@));
            assert(models(diagnostics@) =~= start + duplicates(s.take(i + 1), before@, after@));
        }
        i = i + 1;
    }
    proof {
        assert(s.take(s.len() as int) =~= s);
    }
}

pub proof fn lemma_stage_jobs_step(
    s: Seq<Node>,
    i: int,
    unqualified: Seq<Seq<char>>,
    table: Seq<(Seq<char>, Seq<Seq<char>>)>,
)
    requires
        0 <= i < s.len(),
    ensures
        stage_jobs(s.take(i + 1), unqualified, table) == stage_jobs(s.take(i), unqualified, table) + job_diags(
            s[i],
            names_of(s.take(i)),
            unqualified,
            table,
        ),
{
    assert(s.take(i + 1).drop_last() =~= s.take(i));
}

pub proof fn lemma_stage_templates_step(
    s: Seq<Node>,
    i: int,
    job_names: Seq<Seq<char>>,
    unqualified: Seq<Seq<char>>,
    table: Seq<(Seq<char>, Seq<Seq<char>>)>,
)
    requires
        0 <= i < s.len(),
    ensures
        stage_template_diags(s.take(i + 1), job_names, unqualified, table) == stage_template_diags(
            s.take(i),
            job_names,
            unqualified,
            table,
        ) + duplicate_of(s[i], job_names + names_of(s.take(i)), "duplicate name `"@, "` in stage"@) + template_diags(
            s[i],
            unqualified,
            table,
        ),
{
    assert(s.take(i + 1).drop_last() =~= s.take(i));
}

/// The templates a stage's items may name without a prefix.
fn stage_scope_names(
    stage: &Stage,
    root_templates: &Vec<String>,
    stage_templates: &Vec<(String, Vec<String>)>,
) -> (r: Vec<String>)
    ensures
        strs_view(r@) == stage_scope(stage.node(), strs_view(root_templates@), table_view(stage_templates@)),
{
    let mut all: Vec<String> = Vec::new();
    match stage.name() {
        Some(name) => match lookup_stage(stage_templates, name.as_str()) {
            Some(names) => {
                let mut k: usize = 0;
                while k < names.len()
                    invariant
                        0 <= k <= names@.len(),
                        strs_view(all@) == strs_view(names@).take(k as int),
                    decreases names@.len() - k,
                {
                    let ghost before = all@;
                    let c = names[k].clone();
                    assert(c@ == names@[k as int]@);
                    all.push(c);
                    assert(strs_view(all@) =~= strs_view(before).push(names@[k as int]@));
                    assert(strs_view(all@) =~= strs_view(names@).take(k + 1));
                    k = k + 1;
                }
                assert(strs_view(names@).take(names@.len() as int) =~= strs_view(names@));
            },
            None => {},
        },
        None => {},
    }
    let ghost first = strs_view(all@);
    let mut k: usize = 0;
    while k < root_templates.len()
        invariant
            0 <= k <= root_templates@.len(),
            strs_view(all@) == first + strs_view(root_templates@).take(k as int),
        decreases root_templates@.len() - k,
    {
        let ghost before = all@;
        let c = root_templates[k].clone();
        assert(c@ == root_templates@[k as int]@);
        all.push(c);
        assert(strs_view(all@) =~= strs_view(before).push(root_templates@[k as int]@));
        assert(strs_view(all@) =~= first + strs_view(root_templates@).take(k + 1));
        k = k + 1;
    }
    assert(strs_view(root_templates@).take(root_templates@.len() as int) =~= strs_view(root_templates@));
    assert(strs_view(all@) =~= stage_scope(stage.node(), strs_view(root_templates@), table_view(stage_templates@)));
    all
}

fn check_stage(
    stage: &Stage,
    root_templates: &Vec<String>,
    stage_templates: &Vec<(String, Vec<String>)>,
    diagnostics: &mut Vec<Diagnostic>,
)
    ensures
        models(final(diagnostics)@) == models(old(diagnostics)@) + stage_diags(
            stage.node(),
            strs_view(root_templates@),
            table_view(stage_templates@),
        ),
{
    let ghost start = models(diagnostics@);
    let ghost top = strs_view(root_templates@);
    let ghost table = table_view(stage_templates@);
    let keys: &[&str] = &["dependencies"];
    assert(strs(keys@) =~= stage_keys());
    check_unknown_attrs(stage.syntax(), "stage", keys, diagnostics);
    check_dependencies_attr(stage.syntax(), diagnostics);
    let ghost mid = models(diagnostics@);
    let body = match stage.body() {
        Some(b) => b,
        None => {
            assert(models(diagnostics@) =~= start + stage_diags(stage.node(), top, table));
            return ;
        },
    };
    let all_template_names = stage_scope_names(stage, root_templates, stage_templates);
    let ghost scope = strs_view(all_template_names@);
    let ghost sj = spec_child_nodes(body.node().children@, SyntaxKind::Job);
    let ghost st = spec_child_nodes(body.node().children@, SyntaxKind::TemplateDef);
    let mut seen: Vec<String> = Vec::new();
    assert(strs_view(seen@) =~= Seq::empty());
    let jobs = body.jobs();
    let mut i: usize = 0;
    while i < jobs.len()
        invariant
            0 <= i <= jobs@.len(),
            jobs@.len() == sj.len(),
            forall|j: int| 0 <= j < jobs@.len() ==> #[trigger] jobs@[j].node() == sj[j],
            strs_view(all_template_names@) == scope,
            table_view(stage_templates@) == table,
            forall|x: Seq<char>| #[trigger] strs_view(seen@).contains(x) == names_of(sj.take(i as int)).contains(x),
            models(diagnostics@) == mid + stage_jobs(sj.take(i as int), scope, table),
        decreases jobs@.len() - i,
    {
        let job = &jobs[i];
        let ghost seen0 = strs_view(seen@);
        let ghost d0 = models(diagnostics@);
        assert(job.node() == sj[i as int]);
        check_duplicate(job.syntax(), &mut seen, "duplicate job name `", "` in stage", diagnostics);
        check_job(job, &all_template_names, stage_templates, diagnostics);
        proof {
            lemma_stage_jobs_step(sj, i as int, scope, table);
            lemma_names_step(sj, i as int);
            let prior = names_of(sj.take(i as int));
            match spec_name(sj[i as int]) {
                Some(n) => {
                    assert(seen0.contains(n) == prior.contains(n));
                    assert forall|x: Seq<char>| #[trigger] strs_view(seen@).contains(x) == names_of(sj.take(i + 1)).contains(x) by {
                        lemma_push_contains(prior, n, x);
                        assert(seen0.contains(x) == prior.contains(x));
                    }
                },
                None => {
                    assert forall|x: Seq<char>| #[trigger] strs_view(seen@).contains(x) == names_of(sj.take(i + 1)).contains(x) by {
                        assert(seen0.contains(x) == prior.contains(x));
                    }
                },
            }
            assert(duplicate_of(sj[i as int], seen0, "duplicate job name `"@, "` in stage"@) == duplicate_of(
                sj[i as int],
                prior,
                "duplicate job name `"@,
                "` in stage"@,
            ));
            assert(models(diagnostics@) =~= mid + stage_jobs(sj.take(i + 1), scope, table));
        }
        i = i + 1;
    }
    proof {
        assert(sj.take(sj.len() as int) =~= sj);
    }
    let ghost mid2 = models(diagnostics@);
    let ghost job_names = names_of(sj);
    let tmpls = body.templates();
    let mut j: usize = 0;
    while j < tmpls.len()
        invariant
            0 <= j <= tmpls@.len(),
            tmpls@.len() == st.len(),
            forall|k: int| 0 <= k < tmpls@.len() ==> #[trigger] tmpls@[k].node() == st[k],
            strs_view(all_template_names@) == scope,
            table_view(stage_templates@) == table,
            forall|x: Seq<char>| #[trigger] strs_view(seen@).contains(x) == (job_names + names_of(st.take(j as int))).contains(x),
            models(diagnostics@) == mid2 + stage_template_diags(st.take(j as int), job_names, scope, table),
        decreases tmpls@.len() - j,
    {
        let tmpl = &tmpls[j];
        let ghost seen0 = strs_view(seen@);
        assert(tmpl.node() == st[j as int]);
        check_duplicate(tmpl.syntax(), &mut seen, "duplicate name `", "` in stage", diagnostics);
        check_template(tmpl, &all_template_names, stage_templates, diagnostics);
        proof {
            lemma_stage_templates_step(st, j as int, job_names, scope, table);
            lemma_names_step(st, j as int);
            let prior = job_names + names_of(st.take(j as int));
            match spec_name(st[j as int]) {
                Some(n) => {
                    assert(seen0.contains(n) == prior.contains(n));
                    assert(job_names + names_of(st.take(j + 1)) =~= prior.push(n));
                    assert forall|x: Seq<char>| #[trigger] strs_view(seen@).contains(x) == (job_names + names_of(st.take(j + 1))).contains(x) by {
                        lemma_push_contains(prior, n, x);
                        assert(seen0.contains(x) == prior.contains(x));
                    }
                },
                None => {
                    assert forall|x: Seq<char>| #[trigger] strs_view(seen@).contains(x) == (job_names + names_of(st.take(j + 1))).contains(x) by {
                        assert(seen0.contains(x) == prior.contains(x));
                    }
                },
            }
            assert(duplicate_of(st[j as int], seen0, "duplicate name `"@, "` in stage"@) == duplicate_of(
                st[j as int],
                prior,
                "duplicate name `"@,
                "` in stage"@,
            ));
            assert(models(diagnostics@) =~= mid2 + stage_template_diags(st.take(j + 1), job_names, scope, table));
        }
        j = j + 1;
    }
    proof {
        assert(st.take(st.len() as int) =~= st);
        assert(models(diagnostics@) =~= start + stage_diags(stage.node(), top, table));
    }
}

/// Everything but the duplicate-name check that a job of a stage is checked for.
fn check_job(
    job: &crate::ast::Job,
    template_names: &Vec<String>,
    stage_templates: &Vec<(String, Vec<String>)>,
    diagnostics: &mut Vec<Diagnostic>,
)
    ensures
        models(final(diagnostics)@) == models(old(diagnostics)@) + spec_unknown_attrs(job.node(), "job"@, job_keys())
            + spec_dependencies(job.node()) + job_steps(job.node(), strs_view(template_names@), table_view(stage_templates@)),
{
    let ghost start = models(diagnostics@);
    let keys: &[&str] = &["image", "inherit", "dependencies", "variables"];
    assert(strs(keys@) =~= job_keys());
    check_unknown_attrs(job.syntax(), "job", keys, diagnostics);
    check_dependencies_attr(job.syntax(), diagnostics);
    check_job_steps(job, template_names, stage_templates, diagnostics);
    assert(models(diagnostics@) =~= start + spec_unknown_attrs(job.node(), "job"@, job_keys()) + spec_dependencies(
        job.node(),
    ) + job_steps(job.node(), strs_view(template_names@), table_view(stage_templates@)));
}

/// Everything a template is checked for, wherever it stands.
fn check_template(
    tmpl: &TemplateDef,
    template_names: &Vec<String>,
    stage_templates: &Vec<(String, Vec<String>)>,
    diagnostics: &mut Vec<Diagnostic>,
)
    ensures
        models(final(diagnostics)@) == models(old(diagnostics)@) + template_diags(
            tmpl.node(),
            strs_view(template_names@),
            table_view(stage_templates@),
        ),
{
    let ghost start = models(diagnostics@);
    let keys: &[&str] = &["image", "inherit", "dependencies", "variables"];
    assert(strs(keys@) =~= job_keys());
    check_unknown_attrs(tmpl.syntax(), "template", keys, diagnostics);
    check_dependencies_attr(tmpl.syntax(), diagnostics);
    check_inherit_attrs(
        tmpl.syntax(),
        "template",
        "this scope",
        Severity::Error,
        template_names,
        stage_templates,
        diagnostics,
    );
    check_template_steps(tmpl, diagnostics);
    assert(models(diagnostics@) =~= start + template_diags(
        tmpl.node(),
        strs_view(template_names@),
        table_view(stage_templates@),
    ));
}

/// `true` if the node's attribute list has an attribute with key `key`.
fn has_attr(node: &Node, key: &str) -> (r: bool)
    ensures
        r == spec_find_attr(*node, key@) is Some,
{
    crate::ast::find_attr(node, key).is_some()
}

fn check_template_steps(tmpl: &TemplateDef, diagnostics: &mut Vec<Diagnostic>)
    ensures
        models(final(diagnostics)@) == models(old(diagnostics)@) + template_steps(tmpl.node()),
{
    let ghost start = models(diagnostics@);
    match tmpl.body() {
        Some(body) => {
            if !has_attr(tmpl.syntax(), "inherit") {
                check_step_reuse(&body, "template", diagnostics);
            } else {
                assert(models(diagnostics@) =~= start + template_steps(tmpl.node()));
            }
        },
        None => {
            assert(models(diagnostics@) =~= start + template_steps(tmpl.node()));
        },
    }
}

/// `steps` and bare `step` references reuse steps from an inherited template,
/// so they only make sense where there is something to inherit from.
fn check_step_reuse(body: &JobBodySteps, owner: &str, diagnostics: &mut Vec<Diagnostic>)
    ensures
        models(final(diagnostics)@) == models(old(diagnostics)@) + step_reuse(body.node(), owner@),
{
    let ghost start = models(diagnostics@);
    let kws = body.steps_keywords();
    if kws.len() > 0 {
        let message = cat(&["`steps` can only be used in a ", owner, " that has an `inherit` attribute"]);
        proof {
            reveal_with_fuel(crate::text::concat_all, 4);
        }
        push_diag(diagnostics, Severity::Error, message, span_of(kws[0].syntax()));
    }
    let ghost mid = models(diagnostics@);
    let steps = body.steps();
    let ghost ss = spec_child_nodes(body.node().children@, SyntaxKind::Step);
    let mut i: usize = 0;
    while i < steps.len()
        invariant
            0 <= i <= steps@.len(),
            steps@.len() == ss.len(),
            forall|j: int| 0 <= j < steps@.len() ==> #[trigger] steps@[j].node() == ss[j],
            models(diagnostics@) == mid + each(ss.take(i as int), bare_step_f(owner@)),
        decreases steps@.len() - i,
    {
        let step = &steps[i];
        let ghost before = models(diagnostics@);
        assert(step.node() == ss[i as int]);
        if !step.has_body() {
            match step.name() {
                Some(name) => {
                    let message = cat(
                        &[
                            "`step ",
                            name.as_str(),
                            "` without a body can only be used in a ",
                            owner,
                            " that has an `inherit` attribute",
                        ],
                    );
                    proof {
                        reveal_with_fuel(crate::text::concat_all, 6);
                    }
                    push_diag(diagnostics, Severity::Error, message, span_of(step.syntax()));
                },
                None => {},
            }
        }
        proof {
            lemma_each_step(ss, bare_step_f(owner@), i as int);
            assert(models(diagnostics@) =~= before + bare_step(ss[i as int], owner@));
            assert(models(diagnostics@) =~= mid + each(ss.take(i + 1), bare_step_f(owner@)));
        }
        i = i + 1;
    }
    proof {
        lemma_each_whole(ss, bare_step_f(owner@));
        assert(models(diagnostics@) =~= start + step_reuse(body.node(), owner@));
    }
}

/// Check that a `dependencies` attribute is a list of `stage.job` references.
///
/// Whether the referenced jobs exist can only be known once templates have
/// been resolved, so that is checked when the workflow is lowered.
fn check_dependencies_attr(node: &Node, diagnostics: &mut Vec<Diagnostic>)
    ensures
        models(final(diagnostics)@) == models(old(diagnostics)@) + spec_dependencies(*node),
{
    let ghost start = models(diagnostics@);
    let al = match attr_list_of(node) {
        Some(al) => al,
        None => {
            assert(models(diagnostics@) =~= start + spec_dependencies(*node));
            return ;
        },
    };
    let attrs = al.attrs();
    let ghost sa = spec_child_nodes(al.node().children@, SyntaxKind::Attr);
    assert(sa == spec_attrs(*node));
    let mut i: usize = 0;
    while i < attrs.len()
        invariant
            0 <= i <= attrs@.len(),
            attrs@.len() == sa.len(),
            forall|j: int| 0 <= j < attrs@.len() ==> #[trigger] attrs@[j].node() == sa[j],
            models(diagnostics@) == start + each(sa.take(i as int), dependencies_attr_f()),
        decreases attrs@.len() - i,
    {
        assert(attrs@[i as int].node() == sa[i as int]);
        check_dependency_attr(&attrs[i], diagnostics);
        proof {
            lemma_each_step(sa, dependencies_attr_f(), i as int);
            assert(models(diagnostics@) =~= start + each(sa.take(i + 1), dependencies_attr_f()));
        }
        i = i + 1;
    }
    proof {
        lemma_each_whole(sa, dependencies_attr_f());
    }
}

fn check_dependency_attr(attr: &Attr, diagnostics: &mut Vec<Diagnostic>)
    ensures
        models(final(diagnostics)@) == models(old(diagnostics)@) + dependencies_attr(attr.node()),
{
    let ghost start = models(diagnostics@);
    if !attr.has_key("dependencies") {
        assert(models(diagnostics@) =~= start + dependencies_attr(attr.node()));
        return ;
    }
    match attr.value() {
        None => {
            assert(models(diagnostics@) =~= start + dependencies_attr(attr.node()));
        },
        Some(value) => match value.ref_list() {
            None => {
                // A missing value is already reported as a parse error.
                if value.bare_text().is_some() {
                    let message = cat(&["`dependencies` must be a list of jobs, e.g. `[ stage.job ]`"]);
                    proof {
                        reveal_with_fuel(crate::text::concat_all, 2);
                    }
                    push_diag(diagnostics, Severity::Error, message, span_of(attr.syntax()));
                }
                assert(models(diagnostics@) =~= start + dependencies_attr(attr.node()));
            },
            Some(ref_list) => {
                let refs = ref_list.refs();
                let ghost sr = spec_child_nodes(ref_list.node().children@, SyntaxKind::Ref);
                let mut j: usize = 0;
                while j < refs.len()
                    invariant
                        0 <= j <= refs@.len(),
                        refs@.len() == sr.len(),
                        forall|k: int| 0 <= k < refs@.len() ==> #[trigger] refs@[k].node() == sr[k],
                        models(diagnostics@) == start + each(sr.take(j as int), dependency_ref_f()),
                    decreases refs@.len() - j,
                {
                    let ghost before = models(diagnostics@);
                    assert(refs@[j as int].node() == sr[j as int]);
                    if refs[j].stage_job().is_none() {
                        let text = refs[j].text();
                        let message = cat(&["dependency `", text.as_str(), "` must be written as `stage.job`"]);
                        proof {
                            reveal_with_fuel(crate::text::concat_all, 4);
                        }
                        push_diag(diagnostics, Severity::Error, message, span_without_trivia(refs[j].syntax()));
                    }
                    proof {
                        lemma_each_step(sr, dependency_ref_f(), j as int);
                        assert(models(diagnostics@) =~= before + dependency_ref(sr[j as int]));
                        assert(models(diagnostics@) =~= start + each(sr.take(j + 1), dependency_ref_f()));
                    }
                    j = j + 1;
                }
                proof {
                    lemma_each_whole(sr, dependency_ref_f());
                }
            },
        },
    }
}

/// Report the names listed by the `inherit` attributes of `node` that name
/// no template which exists.
fn check_inherit_attrs(
    node: &Node,
    owner: &str,
    scope: &str,
    severity: Severity,
    template_names: &Vec<String>,
    stage_templates: &Vec<(String, Vec<String>)>,
    diagnostics: &mut Vec<Diagnostic>,
)
    ensures
        models(final(diagnostics)@) == models(old(diagnostics)@) + each(
            spec_attrs(*node),
            inherit_attr_f(owner@, scope@, severity, strs_view(template_names@), table_view(stage_templates@)),
        ),
{
    let ghost start = models(diagnostics@);
    let ghost f = inherit_attr_f(owner@, scope@, severity, strs_view(template_names@), table_view(stage_templates@));
    let al = match attr_list_of(node) {
        Some(al) => al,
        None => {
            assert(models(diagnostics@) =~= start + each(spec_attrs(*node), f));
            return ;
        },
    };
    let attrs = al.attrs();
    let ghost sa = spec_child_nodes(al.node().children@, SyntaxKind::Attr);
    assert(sa == spec_attrs(*node));
    let mut i: usize = 0;
    while i < attrs.len()
        invariant
            0 <= i <= attrs@.len(),
            attrs@.len() == sa.len(),
            forall|j: int| 0 <= j < attrs@.len() ==> #[trigger] attrs@[j].node() == sa[j],
            f == inherit_attr_f(owner@, scope@, severity, strs_view(template_names@), table_view(stage_templates@)),
            models(diagnostics@) == start + each(sa.take(i as int), f),
        decreases attrs@.len() - i,
    {
        let attr = &attrs[i];
        let ghost before = models(diagnostics@);
        assert(attr.node() == sa[i as int]);
        if attr.has_key("inherit") {
            let names = inherit_names_from_attr(attr);
            let ghost sn = strs_view(names@);
            let ghost g = inherit_name_f(
                owner@,
                scope@,
                severity,
                strs_view(template_names@),
                table_view(stage_templates@),
                spec_span(attr.node()),
            );
            let mut j: usize = 0;
            while j < names.len()
                invariant
                    0 <= j <= names@.len(),
                    sn == strs_view(names@),
                    g == inherit_name_f(
                        owner@,
                        scope@,
                        severity,
                        strs_view(template_names@),
                        table_view(stage_templates@),
                        spec_span(attr.node()),
                    ),
                    models(diagnostics@) == before + each(sn.take(j as int), g),
                decreases names@.len() - j,
            {
                check_inherit_name(
                    names[j].as_str(),
                    owner,
                    scope,
                    severity,
                    template_names,
                    stage_templates,
                    attr,
                    diagnostics,
                );
                proof {
                    lemma_each_step(sn, g, j as int);
                    assert(models(diagnostics@) =~= before + each(sn.take(j + 1), g));
                }
                j = j + 1;
            }
            proof {
                lemma_each_whole(sn, g);
            }
        }
        proof {
            lemma_each_step(sa, f, i as int);
            assert(models(diagnostics@) =~= before + inherit_attr(
                sa[i as int],
                owner@,
                scope@,
                severity,
                strs_view(template_names@),
                table_view(stage_templates@),
            ));
            assert(models(diagnostics@) =~= start + each(sa.take(i + 1), f));
        }
        i = i + 1;
    }
    proof {
        lemma_each_whole(sa, f);
    }
}

/// Report an `inherit` name that doesn't name a template which exists.
///
/// `stage.name` names a template in that stage; an unqualified name is looked
/// up in `unqualified`, the templates usable without a prefix from here.
/// Cross-file references are checked when the workflow is built.
fn check_inherit_name(
    name: &str,
    owner: &str,
    scope: &str,
    severity: Severity,
    unqualified: &Vec<String>,
    stage_templates: &Vec<(String, Vec<String>)>,
    attr: &Attr,
    diagnostics: &mut Vec<Diagnostic>,
)
    ensures
        models(final(diagnostics)@) == models(old(diagnostics)@) + inherit_name_diags(
            name@,
            owner@,
            scope@,
            severity,
            strs_view(unqualified@),
            table_view(stage_templates@),
            spec_span(attr.node()),
        ),
{
    let ghost start = models(diagnostics@);
    let ghost expected = inherit_name_diags(
        name@,
        owner@,
        scope@,
        severity,
        strs_view(unqualified@),
        table_view(stage_templates@),
        spec_span(attr.node()),
    );
    if contains_char(name, '/') {
        assert(models(diagnostics@) =~= start + expected);
        return ;
    }
    let message = match split_once(name, '.') {
        Some((stage_name, template_name)) => match lookup_stage(stage_templates, stage_name.as_str()) {
            None => {
                let m = cat(
                    &[owner, " inherits from `", name, "`, but there is no stage `", stage_name.as_str(), "`"],
                );
                proof {
                    reveal_with_fuel(crate::text::concat_all, 7);
                }
                m
            },
            Some(names) => {
                if name_in(names, template_name.as_str()) {
                    assert(models(diagnostics@) =~= start + expected);
                    return ;
                }
                let m = cat(
                    &[
                        owner,
                        " inherits from `",
                        name,
                        "`, but stage `",
                        stage_name.as_str(),
                        "` has no template `",
                        template_name.as_str(),
                        "`",
                    ],
                );
                proof {
                    reveal_with_fuel(crate::text::concat_all, 9);
                }
                m
            },
        },
        None => {
            if name_in(unqualified, name) {
                assert(models(diagnostics@) =~= start + expected);
                return ;
            }
            let m = cat(
                &[owner, " inherits from `", name, "`, but no template with that name is defined in ", scope],
            );
            proof {
                reveal_with_fuel(crate::text::concat_all, 6);
            }
            m
        },
    };
    push_diag(diagnostics, severity, message, span_of(attr.syntax()));
    assert(models(diagnostics@) =~= start + expected);
}

fn check_job_steps(
    job: &crate::ast::Job,
    template_names: &Vec<String>,
    stage_templates: &Vec<(String, Vec<String>)>,
    diagnostics: &mut Vec<Diagnostic>,
)
    ensures
        models(final(diagnostics)@) == models(old(diagnostics)@) + job_steps(
            job.node(),
            strs_view(template_names@),
            table_view(stage_templates@),
        ),
{
    let ghost start = models(diagnostics@);
    let body = match job.steps_body() {
        Some(b) => b,
        None => {
            if job.inline_body().is_some() {
                check_inherit_attrs(
                    job.syntax(),
                    "job",
                    "this stage or at the top level",
                    Severity::Error,
                    template_names,
                    stage_templates,
                    diagnostics,
                );
                return ;
            }
            assert(models(diagnostics@) =~= start + job_steps(
                job.node(),
                strs_view(template_names@),
                table_view(stage_templates@),
            ));
            return ;
        },
    };
    if has_attr(job.syntax(), "inherit") {
        check_inherit_attrs(
            job.syntax(),
            "job",
            "this stage or at the top level",
            Severity::Warning,
            template_names,
            stage_templates,
            diagnostics,
        );
    } else {
        check_step_reuse(&body, "job", diagnostics);
    }
}

fn check_import(imp: &Node, diagnostics: &mut Vec<Diagnostic>)
    ensures
        models(final(diagnostics)@) == models(old(diagnostics)@) + import_diags(*imp),
{
    let ghost start = models(diagnostics@);
    let keys: &[&str] = &["location", "name"];
    assert(strs(keys@) =~= import_keys());
    check_unknown_attrs(imp, "workflow import", keys, diagnostics);
    let ghost mid = models(diagnostics@);
    if !has_attr(imp, "location") {
        let message = cat(&["workflow import is missing the `location` attribute"]);
        proof {
            reveal_with_fuel(crate::text::concat_all, 2);
        }
        push_diag(diagnostics, Severity::Error, message, span_of(imp));
    }
    let ghost mid2 = models(diagnostics@);
    if !has_attr(imp, "name") {
        let message = cat(&["workflow import is missing the `name` attribute"]);
        proof {
            reveal_with_fuel(crate::text::concat_all, 2);
        }
        push_diag(diagnostics, Severity::Error, message, span_of(imp));
    }
    assert(models(diagnostics@) =~= start + import_diags(*imp));
}

fn check_use_decl_attrs(decl: &UseDecl, diagnostics: &mut Vec<Diagnostic>)
    ensures
        models(final(diagnostics)@) == models(old(diagnostics)@) + use_decl_diags(decl.node()),
{
    let ghost start = models(diagnostics@);
    let imports = decl.syntax().child_nodes(SyntaxKind::WorkflowImport);
    let ghost si = spec_child_nodes(decl.node().children@, SyntaxKind::WorkflowImport);
    let is_block = decl.syntax().child_token(SyntaxKind::LBrace).is_some();
    if is_block {
        let mut i: usize = 0;
        while i < imports.len()
            invariant
                0 <= i <= imports@.len(),
                imports@.len() == si.len(),
                forall|j: int| 0 <= j < imports@.len() ==> *imports@[j] == si[j],
                models(diagnostics@) == start + each(si.take(i as int), import_f()),
            decreases imports@.len() - i,
        {
            check_import(imports[i], diagnostics);
            proof {
                lemma_each_step(si, import_f(), i as int);
                assert(models(diagnostics@) =~= start + each(si.take(i + 1), import_f()));
            }
            i = i + 1;
        }
        proof {
            lemma_each_whole(si, import_f());
        }
        return ;
    }
    let keys: &[&str] = &["path"];
    assert(strs(keys@) =~= use_keys());
    check_unknown_attrs(decl.syntax(), "use import", keys, diagnostics);
    let ghost mid = models(diagnostics@);
    if decl.path().is_none() {
        let message = cat(&["`use` import is missing the `path` attribute"]);
        proof {
            reveal_with_fuel(crate::text::concat_all, 2);
        }
        push_diag(diagnostics, Severity::Error, message, span_of(decl.syntax()));
    }
    assert(models(diagnostics@) =~= start + use_decl_diags(decl.node()));
}

} // verus!

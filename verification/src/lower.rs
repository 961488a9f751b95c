use vstd::prelude::*;

use crate::ast::{
    AstNode, Attr, HasAttrList, HasName, Job as AstJob, JobBodySteps, Root, Step, TemplateDef,
    attr_list_of, spec_attr_list, spec_attr_value, spec_key_text, spec_name, spec_root_items,
    spec_stage_job, spec_value_text,
};
use crate::cst::{Element, Node, spec_child_node, spec_child_nodes, spec_child_token};
use crate::dedent::{dedent, spec_dedent};
use crate::ir::{Job, JobRef, Stage, Workflow, WorkflowStrategy, opt_view, pairs_view, refs_view, strs_view};
use crate::merge::{
    StepItem, StepItemView, TemplateData, explicit_names, items_view, resolve_steps, spec_resolve_steps,
};
use crate::syntax::SyntaxKind;
use crate::validation::{inherit_names_from_attr, spec_inherit_names};

verus! {

// ─── attributes ──────────────────────────────────────────────────────────────

pub open spec fn seq_image() -> Seq<char> {
    seq!['i', 'm', 'a', 'g', 'e']
}

pub open spec fn seq_inherit() -> Seq<char> {
    seq!['i', 'n', 'h', 'e', 'r', 'i', 't']
}

pub open spec fn seq_dependencies() -> Seq<char> {
    seq!['d', 'e', 'p', 'e', 'n', 'd', 'e', 'n', 'c', 'i', 'e', 's']
}

/// The `stage.job` references among `refs`, in order; others are skipped.
pub open spec fn spec_job_refs(refs: Seq<Node>) -> Seq<(Seq<char>, Seq<char>)>
    decreases refs.len(),
{
    if refs.len() == 0 {
        Seq::empty()
    } else {
        spec_job_refs(refs.drop_last()) + match spec_stage_job(refs.last()) {
            Some(p) => seq![p],
            None => Seq::empty(),
        }
    }
}

/// The job references a `dependencies` value lists.
pub open spec fn spec_value_refs(value: Node) -> Seq<(Seq<char>, Seq<char>)> {
    match spec_child_node(value, SyntaxKind::RefList) {
        Some(rl) => spec_job_refs(spec_child_nodes(rl.children@, SyntaxKind::Ref)),
        None => Seq::empty(),
    }
}

/// The attributes a job or template is lowered from.
pub struct ParsedAttrs {
    pub image: Option<String>,
    pub inherit_names: Vec<String>,
    pub needs: Vec<JobRef>,
}

pub struct AttrsView {
    pub image: Option<Seq<char>>,
    pub inherit_names: Seq<Seq<char>>,
    pub needs: Seq<(Seq<char>, Seq<char>)>,
}

impl ParsedAttrs {
    pub open spec fn view(&self) -> AttrsView {
        AttrsView {
            image: opt_view(self.image),
            inherit_names: strs_view(self.inherit_names@),
            needs: refs_view(self.needs@),
        }
    }
}

/// The attributes of `attrs[..k]`, each key's last occurrence winning: the
/// scalar `image`, the `inherit` names, and the `dependencies` references
/// (from the last `dependencies` attribute that has a value).
pub open spec fn spec_attrs(attrs: Seq<Node>, k: int) -> AttrsView
    decreases k,
{
    if k <= 0 || k > attrs.len() {
        AttrsView { image: None, inherit_names: Seq::empty(), needs: Seq::empty() }
    } else {
        let a = spec_attrs(attrs, k - 1);
        let at = attrs[k - 1];
        let key = spec_key_text(at);
        if key == Some(seq_image()) {
            AttrsView { image: spec_value_text(at), ..a }
        } else if key == Some(seq_inherit()) {
            AttrsView { inherit_names: spec_inherit_names(at), ..a }
        } else if key == Some(seq_dependencies()) {
            match spec_attr_value(at) {
                Some(v) => AttrsView { needs: spec_value_refs(v), ..a },
                None => a,
            }
        } else {
            a
        }
    }
}

/// The attributes of the node `n` (a job or a template).
pub open spec fn spec_node_attrs(n: Node) -> AttrsView {
    match spec_attr_list(n) {
        Some(al) => {
            let attrs = spec_child_nodes(al.children@, SyntaxKind::Attr);
            spec_attrs(attrs, attrs.len() as int)
        },
        None => AttrsView { image: None, inherit_names: Seq::empty(), needs: Seq::empty() },
    }
}

/// Job references from a `dependencies` value.
///
/// References that aren't in `stage.job` form are skipped; they're reported by
/// validation, and resolving them here would report them a second time as
/// missing jobs.
fn refs_from_value(value: &crate::ast::AttrValue) -> (r: Vec<JobRef>)
    ensures
        refs_view(r@) == spec_value_refs(value.node()),
{
    let mut r: Vec<JobRef> = Vec::new();
    match value.ref_list() {
        None => {
            assert(refs_view(r@) =~= Seq::empty());
        },
        Some(rl) => {
            let refs = rl.refs();
            let ghost sr = spec_child_nodes(rl.node().children@, SyntaxKind::Ref);
            let mut i: usize = 0;
            while i < refs.len()
                invariant
                    0 <= i <= refs@.len(),
                    refs@.len() == sr.len(),
                    forall|j: int| 0 <= j < refs@.len() ==> #[trigger] refs@[j].node() == sr[j],
                    refs_view(r@) == spec_job_refs(sr.take(i as int)),
                decreases refs@.len() - i,
            {
                let ghost before = refs_view(r@);
                assert(refs@[i as int].node() == sr[i as int]);
                assert(sr.take(i + 1).drop_last() =~= sr.take(i as int));
                assert(sr.take(i + 1).last() == sr[i as int]);
                match refs[i].stage_job() {
                    Some((stage, job)) => {
                        r.push(JobRef { stage, job });
                        assert(refs_view(r@) =~= before + seq![refs_view(r@).last()]);
                    },
                    None => {
                        assert(before + Seq::<(Seq<char>, Seq<char>)>::empty() =~= before);
                    },
                }
                i = i + 1;
            }
            assert(sr.take(sr.len() as int) =~= sr);
        },
    }
    r
}

/// The image, `inherit` names and dependencies of a job or template.
pub fn parse_attrs(node: &Node) -> (r: ParsedAttrs)
    ensures
        r@ == spec_node_attrs(*node),
{
    let mut image: Option<String> = None;
    let mut inherit_names: Vec<String> = Vec::new();
    let mut needs: Vec<JobRef> = Vec::new();
    let al = match attr_list_of(node) {
        Some(al) => al,
        None => {
            let r = ParsedAttrs { image, inherit_names, needs };
            assert(r@.inherit_names =~= Seq::empty());
            assert(r@.needs =~= Seq::empty());
            return r;
        },
    };
    let attrs = al.attrs();
    let ghost sa = spec_child_nodes(al.node().children@, SyntaxKind::Attr);
    assert(strs_view(inherit_names@) =~= Seq::empty());
    assert(refs_view(needs@) =~= Seq::empty());
    let mut i: usize = 0;
    while i < attrs.len()
        invariant
            0 <= i <= attrs@.len(),
            attrs@.len() == sa.len(),
            forall|j: int| 0 <= j < attrs@.len() ==> #[trigger] attrs@[j].node() == sa[j],
            (ParsedAttrs { image, inherit_names, needs })@ == spec_attrs(sa, i as int),
        decreases attrs@.len() - i,
    {
        let a = &attrs[i];
        assert(a.node() == sa[i as int]);
        if a.has_key("image") {
            proof {
                reveal_strlit("image");
                assert("image"@ =~= seq_image());
            }
            image = a.value_text();
        } else if a.has_key("inherit") {
            proof {
                reveal_strlit("image");
                reveal_strlit("inherit");
                assert("inherit"@ =~= seq_inherit());
                assert("image"@ =~= seq_image());
            }
            inherit_names = inherit_names_from_attr(a);
        } else if a.has_key("dependencies") {
            proof {
                reveal_strlit("image");
                reveal_strlit("inherit");
                reveal_strlit("dependencies");
                assert("dependencies"@ =~= seq_dependencies());
                assert("inherit"@ =~= seq_inherit());
                assert("image"@ =~= seq_image());
            }
            match a.value() {
                Some(v) => {
                    needs = refs_from_value(&v);
                },
                None => {},
            }
        } else {
            proof {
                reveal_strlit("image");
                reveal_strlit("inherit");
                reveal_strlit("dependencies");
                assert("dependencies"@ =~= seq_dependencies());
                assert("inherit"@ =~= seq_inherit());
                assert("image"@ =~= seq_image());
            }
        }
        i = i + 1;
    }
    assert(sa.len() == attrs@.len());
    ParsedAttrs { image, inherit_names, needs }
}

// ─── step lists ──────────────────────────────────────────────────────────────

/// The shell text of a step node, if it has one.
pub open spec fn spec_shell(n: Node) -> Option<Seq<char>> {
    match spec_child_token(n, SyntaxKind::ShellBody) {
        Some(t) => Some(t.text@),
        None => None,
    }
}

/// The entries of a step list, from its child nodes in order.
pub open spec fn spec_step_items(es: Seq<Element>) -> Seq<StepItemView>
    decreases es.len(),
{
    if es.len() == 0 {
        Seq::empty()
    } else {
        spec_step_items(es.drop_last()) + match es.last() {
            Element::Node(n) => if n.kind == SyntaxKind::Step {
                seq![StepItemView::Step { name: spec_name(n), shell: spec_shell(n) }]
            } else if n.kind == SyntaxKind::StepsKeyword {
                seq![StepItemView::Steps]
            } else {
                Seq::empty()
            },
            Element::Token(_) => Seq::empty(),
        }
    }
}

/// The entries of a step list, in order.
pub fn step_items(body: &JobBodySteps) -> (r: Vec<StepItem>)
    ensures
        items_view(r@) == spec_step_items(body.node().children@),
{
    let node = body.syntax();
    let es = &node.children;
    let mut r: Vec<StepItem> = Vec::new();
    let mut i: usize = 0;
    while i < es.len()
        invariant
            0 <= i <= es@.len(),
            es@ == body.node().children@,
            items_view(r@) == spec_step_items(es@.take(i as int)),
        decreases es@.len() - i,
    {
        let ghost before = items_view(r@);
        assert(es@.take(i + 1).drop_last() =~= es@.take(i as int));
        assert(es@.take(i + 1).last() == es@[i as int]);
        match &es[i] {
            Element::Node(n) => {
                if n.kind == SyntaxKind::Step {
                    let name = crate::ast::name_of(n);
                    let shell = match n.child_token(SyntaxKind::ShellBody) {
                        Some(t) => Some(t.text.clone()),
                        None => None,
                    };
                    r.push(StepItem::Step { name, shell });
                    assert(items_view(r@) =~= before.push(item_view_last(r@)));
                } else if n.kind == SyntaxKind::StepsKeyword {
                    r.push(StepItem::Steps);
                    assert(items_view(r@) =~= before.push(StepItemView::Steps));
                } else {
                    assert(before + Seq::<StepItemView>::empty() =~= before);
                }
            },
            Element::Token(_) => {
                assert(before + Seq::<StepItemView>::empty() =~= before);
            },
        }
        i = i + 1;
    }
    assert(es@.take(es@.len() as int) =~= es@);
    r
}

pub open spec fn item_view_last(v: Seq<StepItem>) -> StepItemView {
    crate::merge::item_view(v.last())
}

/// The shells of `steps`.
pub open spec fn shells(steps: Seq<(Seq<char>, Seq<char>)>) -> Seq<Seq<char>> {
    steps.map_values(|p: (Seq<char>, Seq<char>)| p.1)
}

/// A job's script, and the bare step references no inherited template
/// defines, given the steps it inherits.
pub open spec fn spec_job_script(job: Node, tsteps: Seq<(Seq<char>, Seq<char>)>) -> (Seq<Seq<char>>, Seq<Seq<char>>) {
    match spec_child_node(job, SyntaxKind::JobBodyInline) {
        Some(inline) => match spec_shell(inline) {
            Some(sh) => (seq![spec_dedent(sh)], Seq::empty()),
            None => (Seq::empty(), Seq::empty()),
        },
        None => match spec_child_node(job, SyntaxKind::JobBodySteps) {
            Some(body) => {
                let items = spec_step_items(body.children@);
                let (steps, unresolved) = spec_resolve_steps(items, tsteps, explicit_names(items, items.len() as int), items.len() as int);
                (shells(steps), unresolved)
            },
            None => (Seq::empty(), Seq::empty()),
        },
    }
}

/// The job's script, along with the names of any bare `step` references that
/// no inherited template defines.
pub fn job_script(job: &AstJob, template_steps: &Vec<(String, String)>) -> (r: (Vec<String>, Vec<String>))
    ensures
        (strs_view(r.0@), strs_view(r.1@)) == spec_job_script(job.node(), pairs_view(template_steps@)),
{
    match job.inline_body() {
        Some(inline) => {
            let mut script: Vec<String> = Vec::new();
            match inline.shell_text() {
                Some(s) => {
                    script.push(dedent(s.as_str()));
                    assert(strs_view(script@) =~= seq![script@[0]@]);
                },
                None => {},
            }
            let unresolved: Vec<String> = Vec::new();
            assert(strs_view(script@) =~= spec_job_script(job.node(), pairs_view(template_steps@)).0);
            assert(strs_view(unresolved@) =~= Seq::empty());
            (script, unresolved)
        },
        None => match job.steps_body() {
            Some(body) => {
                let items = step_items(&body);
                let (steps, unresolved) = resolve_steps(&items, template_steps);
                let mut script: Vec<String> = Vec::new();
                let mut i: usize = 0;
                while i < steps.len()
                    invariant
                        0 <= i <= steps@.len(),
                        strs_view(script@) == shells(pairs_view(steps@)).take(i as int),
                    decreases steps@.len() - i,
                {
                    let ghost before = strs_view(script@);
                    script.push(steps[i].1.clone());
                    assert(shells(pairs_view(steps@))[i as int] == steps@[i as int].1@);
                    assert(shells(pairs_view(steps@)).take(i + 1) =~= shells(pairs_view(steps@)).take(i as int).push(steps@[i as int].1@));
                    assert(strs_view(script@) =~= before.push(steps@[i as int].1@));
                    i = i + 1;
                }
                assert(shells(pairs_view(steps@)).take(steps@.len() as int) =~= shells(pairs_view(steps@)));
                (script, unresolved)
            },
            None => {
                let a: Vec<String> = Vec::new();
                let b: Vec<String> = Vec::new();
                assert(strs_view(a@) =~= Seq::empty());
                (a, b)
            },
        },
    }
}


// ─── templates of a file ─────────────────────────────────────────────────────

/// Identifies a template within a file: the stage it is defined in, or none
/// for a top-level one, and its name.
pub struct TemplateKey {
    pub stage: Option<String>,
    pub name: String,
}

pub open spec fn key_view(k: TemplateKey) -> (Option<Seq<char>>, Seq<char>) {
    (opt_view(k.stage), k.name@)
}

fn opt_str_eq(a: &Option<String>, b: &Option<String>) -> (r: bool)
    ensures
        r == (opt_view(*a) == opt_view(*b)),
{
    match (a, b) {
        (Some(x), Some(y)) => crate::text::str_eq(x.as_str(), y.as_str()),
        (None, None) => true,
        _ => false,
    }
}

fn key_eq(a: &TemplateKey, b: &TemplateKey) -> (r: bool)
    ensures
        r == (key_view(*a) == key_view(*b)),
{
    opt_str_eq(&a.stage, &b.stage) && crate::text::str_eq(a.name.as_str(), b.name.as_str())
}

fn copy_key(k: &TemplateKey) -> (r: TemplateKey)
    ensures
        key_view(r) == key_view(*k),
{
    TemplateKey { stage: crate::ir::clone_opt(&k.stage), name: k.name.clone() }
}

/// How a template's body determines its steps.
pub enum TemplateBody {
    /// No body at all: the steps it inherits are kept as they are.
    Inherited,
    /// A step list, resolved against the inherited steps like a job body.
    Steps(Vec<StepItem>),
}

/// A template as written: its own attributes, its body and the names of the
/// templates it inherits from, in order.
pub struct TemplateEntry {
    pub key: TemplateKey,
    pub own: TemplateData,
    pub body: TemplateBody,
    pub inherit_names: Vec<String>,
}

/// The templates and `use` imports of one file.
pub struct FileTemplates {
    pub path: String,
    pub raw: Vec<TemplateEntry>,
    /// Import name and the file it refers to.
    pub imports: Vec<(String, String)>,
}

fn clone_items(v: &Vec<StepItem>) -> (r: Vec<StepItem>)
    ensures
        items_view(r@) == items_view(v@),
{
    let mut r: Vec<StepItem> = Vec::new();
    let mut i: usize = 0;
    while i < v.len()
        invariant
            0 <= i <= v@.len(),
            items_view(r@) == items_view(v@).take(i as int),
        decreases v@.len() - i,
    {
        let item = match &v[i] {
            StepItem::Step { name, shell } => StepItem::Step {
                name: crate::ir::clone_opt(name),
                shell: crate::ir::clone_opt(shell),
            },
            StepItem::Steps => StepItem::Steps,
        };
        let ghost before = items_view(r@);
        r.push(item);
        assert(items_view(r@) =~= before.push(items_view(v@)[i as int]));
        assert(items_view(v@).take(i + 1) =~= items_view(v@).take(i as int).push(items_view(v@)[i as int]));
        i = i + 1;
    }
    assert(items_view(v@).take(v@.len() as int) =~= items_view(v@));
    r
}

fn clone_body(b: &TemplateBody) -> (r: TemplateBody)
    ensures
        match (r, *b) {
            (TemplateBody::Inherited, TemplateBody::Inherited) => true,
            (TemplateBody::Steps(x), TemplateBody::Steps(y)) => items_view(x@) == items_view(y@),
            _ => false,
        },
{
    match b {
        TemplateBody::Inherited => TemplateBody::Inherited,
        TemplateBody::Steps(items) => TemplateBody::Steps(clone_items(items)),
    }
}

// ─── return annotations ──────────────────────────────────────────────────────

/// A return-annotation item that names an environment variable: `$NAME`.
pub open spec fn is_env_item(t: Seq<char>) -> bool {
    t.len() > 0 && t[0] == '$'
}

/// The artifact paths among return-annotation items: those that aren't
/// environment variables.
pub open spec fn ra_artifacts(ts: Seq<Seq<char>>) -> Seq<Seq<char>>
    decreases ts.len(),
{
    if ts.len() == 0 {
        Seq::empty()
    } else {
        ra_artifacts(ts.drop_last()) + if is_env_item(ts.last()) {
            Seq::empty()
        } else {
            seq![ts.last()]
        }
    }
}

/// The environment variables among return-annotation items, without their
/// `$`.
pub open spec fn ra_env(ts: Seq<Seq<char>>) -> Seq<Seq<char>>
    decreases ts.len(),
{
    if ts.len() == 0 {
        Seq::empty()
    } else {
        ra_env(ts.drop_last()) + if is_env_item(ts.last()) {
            seq![ts.last().subrange(1, ts.last().len() as int)]
        } else {
            Seq::empty()
        }
    }
}

/// Split the return annotation of the job or template `n` into the artifact
/// paths and the names of the environment variables it exports.
///
/// Items starting with `$` are environment variables (the `$` is dropped);
/// all others are artifact paths or globs.
pub fn split_return_annotation(n: &Node) -> (r: (Vec<String>, Vec<String>))
    ensures
        strs_view(r.0@) == ra_artifacts(crate::ast::spec_return_items(*n)),
        strs_view(r.1@) == ra_env(crate::ast::spec_return_items(*n)),
{
    let mut artifacts: Vec<String> = Vec::new();
    let mut env: Vec<String> = Vec::new();
    let ra = match n.child_node(SyntaxKind::ReturnAnnotation) {
        Some(ra) => ra,
        None => {
            assert(strs_view(artifacts@) =~= Seq::empty());
            assert(strs_view(env@) =~= Seq::empty());
            return (artifacts, env);
        },
    };
    let pl = match ra.child_node(SyntaxKind::PathList) {
        Some(pl) => pl,
        None => {
            assert(strs_view(artifacts@) =~= Seq::empty());
            assert(strs_view(env@) =~= Seq::empty());
            return (artifacts, env);
        },
    };
    let items = pl.child_nodes(SyntaxKind::PathItem);
    let ghost si = spec_child_nodes(pl.children@, SyntaxKind::PathItem);
    let mut i: usize = 0;
    while i < items.len()
        invariant
            0 <= i <= items@.len(),
            items@.len() == si.len(),
            forall|j: int| 0 <= j < items@.len() ==> *items@[j] == si[j],
            strs_view(artifacts@) == ra_artifacts(crate::ast::path_texts(si.take(i as int))),
            strs_view(env@) == ra_env(crate::ast::path_texts(si.take(i as int))),
        decreases items@.len() - i,
    {
        let ghost a0 = strs_view(artifacts@);
        let ghost e0 = strs_view(env@);
        let ghost t0 = crate::ast::path_texts(si.take(i as int));
        assert(si.take(i + 1).drop_last() =~= si.take(i as int));
        assert(si.take(i + 1).last() == si[i as int]);
        match items[i].child_token(SyntaxKind::PathValue) {
            Some(t) => {
                let cs = crate::text::chars_of(t.text.as_str());
                let ghost ts = crate::ast::path_texts(si.take(i + 1));
                assert(ts =~= t0.push(t.text@));
                assert(ts.drop_last() =~= t0);
                if cs.len() > 0 && cs[0] == '$' {
                    let name = crate::text::substring(&cs, 1, cs.len());
                    env.push(name);
                    assert(strs_view(env@) =~= e0.push(t.text@.subrange(1, t.text@.len() as int)));
                    assert(strs_view(artifacts@) =~= a0 + Seq::<Seq<char>>::empty());
                } else {
                    artifacts.push(t.text.clone());
                    assert(strs_view(artifacts@) =~= a0.push(t.text@));
                    assert(strs_view(env@) =~= e0 + Seq::<Seq<char>>::empty());
                }
            },
            None => {
                assert(crate::ast::path_texts(si.take(i + 1)) =~= t0);
            },
        }
        i = i + 1;
    }
    assert(si.take(si.len() as int) =~= si);
    (artifacts, env)
}

/// A template's own data, before anything it inherits is applied.
pub open spec fn spec_own_data(n: Node) -> crate::merge::DataView {
    let a = spec_node_attrs(n);
    crate::merge::DataView {
        steps: Seq::empty(),
        image: a.image,
        needs: a.needs,
        artifacts: ra_artifacts(crate::ast::spec_return_items(n)),
        env: ra_env(crate::ast::spec_return_items(n)),
        variables: Seq::empty(),
        unset_variables: Seq::empty(),
    }
}

/// A template body as plain values: its step items, or none without a body.
pub open spec fn body_view(b: TemplateBody) -> Option<Seq<StepItemView>> {
    match b {
        TemplateBody::Inherited => None,
        TemplateBody::Steps(items) => Some(items_view(items@)),
    }
}

/// The body a template node has, as `body_view` shows it.
pub open spec fn spec_template_body(n: Node) -> Option<Seq<StepItemView>> {
    match spec_child_node(n, SyntaxKind::JobBodySteps) {
        Some(b) => Some(spec_step_items(b.children@)),
        None => None,
    }
}

/// A template entry as plain values: its key, its own data, the names it
/// inherits and its body.
pub open spec fn entry_view(e: TemplateEntry) -> (
    (Option<Seq<char>>, Seq<char>),
    crate::merge::DataView,
    Seq<Seq<char>>,
    Option<Seq<StepItemView>>,
) {
    (key_view(e.key), e.own@, strs_view(e.inherit_names@), body_view(e.body))
}

pub open spec fn entries_view(v: Seq<TemplateEntry>) -> Seq<(
    (Option<Seq<char>>, Seq<char>),
    crate::merge::DataView,
    Seq<Seq<char>>,
    Option<Seq<StepItemView>>,
)> {
    v.map_values(|e: TemplateEntry| entry_view(e))
}

/// The entries of the named templates among `tmpls`, defined in `stage`.
pub open spec fn spec_entries(stage: Option<Seq<char>>, tmpls: Seq<Node>) -> Seq<(
    (Option<Seq<char>>, Seq<char>),
    crate::merge::DataView,
    Seq<Seq<char>>,
    Option<Seq<StepItemView>>,
)>
    decreases tmpls.len(),
{
    if tmpls.len() == 0 {
        Seq::empty()
    } else {
        let t = tmpls.last();
        spec_entries(stage, tmpls.drop_last()) + match spec_name(t) {
            Some(name) => seq![
                ((stage, name), spec_own_data(t), spec_node_attrs(t).inherit_names, spec_template_body(t)),
            ],
            None => Seq::empty(),
        }
    }
}

/// The entries of the templates of the named stages with a body among `ss`.
pub open spec fn spec_stage_entries(ss: Seq<Node>) -> Seq<(
    (Option<Seq<char>>, Seq<char>),
    crate::merge::DataView,
    Seq<Seq<char>>,
    Option<Seq<StepItemView>>,
)>
    decreases ss.len(),
{
    if ss.len() == 0 {
        Seq::empty()
    } else {
        let st = ss.last();
        spec_stage_entries(ss.drop_last()) + match (spec_name(st), spec_child_node(st, SyntaxKind::StageBody)) {
            (Some(name), Some(body)) => spec_entries(Some(name), spec_child_nodes(body.children@, SyntaxKind::TemplateDef)),
            _ => Seq::empty(),
        }
    }
}

/// The `use` imports among `decls` with both a name and a `path`: the name
/// and the file, relative to `file`, that it refers to.
pub open spec fn spec_file_imports(file: Seq<char>, decls: Seq<Node>) -> Seq<(Seq<char>, Seq<char>)>
    decreases decls.len(),
{
    if decls.len() == 0 {
        Seq::empty()
    } else {
        let d = decls.last();
        spec_file_imports(file, decls.drop_last()) + match (spec_name(d), crate::ast::spec_attr_scalar(d, crate::ast::seq_path())) {
            (Some(name), Some(p)) => seq![(name, crate::paths::spec_import_target(file, p))],
            _ => Seq::empty(),
        }
    }
}

/// The entry for a template defined in `stage` (or at the top level), if it
/// has a name.
fn template_entry(stage: Option<String>, tmpl: &TemplateDef) -> (r: Option<TemplateEntry>)
    ensures
        r is Some <==> spec_name(tmpl.node()) is Some,
        r matches Some(e) ==> key_view(e.key) == (opt_view(stage), spec_name(tmpl.node())->0)
            && e.own@ == spec_own_data(tmpl.node())
            && strs_view(e.inherit_names@) == spec_node_attrs(tmpl.node()).inherit_names
            && body_view(e.body) == spec_template_body(tmpl.node()),
{
    let name = match tmpl.name() {
        Some(n) => n,
        None => return None,
    };
    let attrs = parse_attrs(tmpl.syntax());
    let body = match tmpl.body() {
        Some(b) => TemplateBody::Steps(step_items(&b)),
        None => TemplateBody::Inherited,
    };
    let (ra_artifacts, ra_env) = split_return_annotation(tmpl.syntax());
    let mut own = TemplateData::empty();
    own.image = attrs.image;
    own.needs = attrs.needs;
    own.artifacts = ra_artifacts;
    own.env = ra_env;
    Some(TemplateEntry { key: TemplateKey { stage, name }, own, body, inherit_names: attrs.inherit_names })
}

impl FileTemplates {
    /// The templates and imports of the file at `path`, parsed as `root`.
    ///
    /// Templates are listed top-level ones first, then those of each named
    /// stage with a body; imports with both a name and a `path`.
    pub fn from_root(root: &Root, path: &str) -> (r: FileTemplates)
        ensures
            r.path@ == path@,
            entries_view(r.raw@) == spec_entries(None, spec_root_items(root.node(), SyntaxKind::TemplateDef))
                + spec_stage_entries(spec_root_items(root.node(), SyntaxKind::Stage)),
            pairs_view(r.imports@) == spec_file_imports(path@, spec_root_items(root.node(), SyntaxKind::UseDecl)),
    {
        let mut raw: Vec<TemplateEntry> = Vec::new();
        let tops = root.templates();
        let ghost st = spec_root_items(root.node(), SyntaxKind::TemplateDef);
        let mut i: usize = 0;
        while i < tops.len()
            invariant
                0 <= i <= tops@.len(),
                tops@.len() == st.len(),
                forall|j: int| 0 <= j < tops@.len() ==> #[trigger] tops@[j].node() == st[j],
                entries_view(raw@) == spec_entries(None, st.take(i as int)),
            decreases tops@.len() - i,
        {
            let ghost r0 = entries_view(raw@);
            assert(st.take(i + 1).drop_last() =~= st.take(i as int));
            assert(st.take(i + 1).last() == st[i as int]);
            match template_entry(None, &tops[i]) {
                Some(e) => {
                    raw.push(e);
                    assert(entries_view(raw@) =~= r0.push(entry_view(raw@.last())));
                },
                None => {
                    assert(r0 + Seq::empty() =~= r0);
                },
            }
            i = i + 1;
        }
        assert(st.take(st.len() as int) =~= st);
        let ghost top_entries = entries_view(raw@);
        let stages = root.stages();
        let ghost ss = spec_root_items(root.node(), SyntaxKind::Stage);
        let mut s: usize = 0;
        while s < stages.len()
            invariant
                0 <= s <= stages@.len(),
                stages@.len() == ss.len(),
                forall|j: int| 0 <= j < stages@.len() ==> #[trigger] stages@[j].node() == ss[j],
                entries_view(raw@) == top_entries + spec_stage_entries(ss.take(s as int)),
            decreases stages@.len() - s,
        {
            assert(ss.take(s + 1).drop_last() =~= ss.take(s as int));
            assert(ss.take(s + 1).last() == ss[s as int]);
            let ghost before = entries_view(raw@);
            match (stages[s].name(), stages[s].body()) {
                (Some(stage_name), Some(body)) => {
                    let tmpls = body.templates();
                    let ghost sts = spec_child_nodes(body.node().children@, SyntaxKind::TemplateDef);
                    let mut t: usize = 0;
                    while t < tmpls.len()
                        invariant
                            0 <= t <= tmpls@.len(),
                            tmpls@.len() == sts.len(),
                            forall|j: int| 0 <= j < tmpls@.len() ==> #[trigger] tmpls@[j].node() == sts[j],
                            entries_view(raw@) == before + spec_entries(Some(stage_name@), sts.take(t as int)),
                        decreases tmpls@.len() - t,
                    {
                        let ghost r0 = entries_view(raw@);
                        assert(sts.take(t + 1).drop_last() =~= sts.take(t as int));
                        assert(sts.take(t + 1).last() == sts[t as int]);
                        match template_entry(Some(stage_name.clone()), &tmpls[t]) {
                            Some(e) => {
                                raw.push(e);
                                assert(entries_view(raw@) =~= r0.push(entry_view(raw@.last())));
                            },
                            None => {},
                        }
                        proof {
                            assert(spec_entries(Some(stage_name@), sts.take(t + 1)) =~= spec_entries(Some(stage_name@), sts.take(t as int))
                                + spec_entries(Some(stage_name@), sts.take(t + 1)).subrange(
                                    spec_entries(Some(stage_name@), sts.take(t as int)).len() as int,
                                    spec_entries(Some(stage_name@), sts.take(t + 1)).len() as int,
                                ));
                            assert(entries_view(raw@) =~= before + spec_entries(Some(stage_name@), sts.take(t + 1)));
                        }
                        t = t + 1;
                    }
                    assert(sts.take(sts.len() as int) =~= sts);
                    assert(entries_view(raw@) =~= top_entries + spec_stage_entries(ss.take(s + 1)));
                },
                _ => {
                    assert(entries_view(raw@) =~= top_entries + spec_stage_entries(ss.take(s + 1)));
                },
            }
            s = s + 1;
        }
        assert(ss.take(ss.len() as int) =~= ss);
        let mut imports: Vec<(String, String)> = Vec::new();
        let decls = root.use_decls();
        let ghost sd = spec_root_items(root.node(), SyntaxKind::UseDecl);
        let mut d: usize = 0;
        while d < decls.len()
            invariant
                0 <= d <= decls@.len(),
                decls@.len() == sd.len(),
                forall|j: int| 0 <= j < decls@.len() ==> #[trigger] decls@[j].node() == sd[j],
                pairs_view(imports@) == spec_file_imports(path@, sd.take(d as int)),
            decreases decls@.len() - d,
        {
            let ghost i0 = pairs_view(imports@);
            assert(sd.take(d + 1).drop_last() =~= sd.take(d as int));
            assert(sd.take(d + 1).last() == sd[d as int]);
            match (decls[d].name(), decls[d].path()) {
                (Some(name), Some(p)) => {
                    imports.push((name, crate::paths::import_target(path, p.as_str())));
                    assert(pairs_view(imports@) =~= i0.push(pairs_view(imports@).last()));
                },
                _ => {
                    assert(i0 + Seq::empty() =~= i0);
                },
            }
            d = d + 1;
        }
        assert(sd.take(sd.len() as int) =~= sd);
        FileTemplates { path: path.to_owned(), raw, imports }
    }
}

/// Position of the entry for `key`; the last one, as a later template of the
/// same name replaces an earlier one.
fn find_entry(raw: &Vec<TemplateEntry>, key: &TemplateKey) -> (r: Option<usize>)
    ensures
        r matches Some(i) ==> i < raw@.len() && key_view(raw@[i as int].key) == key_view(*key),
        r matches Some(i) ==> forall|j: int| i < j < raw@.len() ==> key_view(#[trigger] raw@[j].key) != key_view(*key),
        r is None ==> forall|i: int| 0 <= i < raw@.len() ==> key_view(#[trigger] raw@[i].key) != key_view(*key),
{
    let mut i: usize = raw.len();
    while i > 0
        invariant
            0 <= i <= raw@.len(),
            forall|j: int| i <= j < raw@.len() ==> key_view(#[trigger] raw@[j].key) != key_view(*key),
        decreases i,
    {
        if key_eq(&raw[i - 1].key, key) {
            return Some(i - 1);
        }
        i = i - 1;
    }
    None
}

/// The file an import name refers to; the last import of that name wins.
fn find_import(imports: &Vec<(String, String)>, name: &str) -> (r: Option<usize>)
    ensures
        r matches Some(i) ==> i < imports@.len() && imports@[i as int].0@ == name@,
        r matches Some(i) ==> forall|j: int| i < j < imports@.len() ==> #[trigger] imports@[j].0@ != name@,
        r is None ==> forall|i: int| 0 <= i < imports@.len() ==> #[trigger] imports@[i].0@ != name@,
{
    let mut i: usize = imports.len();
    while i > 0
        invariant
            0 <= i <= imports@.len(),
            forall|j: int| i <= j < imports@.len() ==> #[trigger] imports@[j].0@ != name@,
        decreases i,
    {
        if crate::text::str_eq(imports[i - 1].0.as_str(), name) {
            return Some(i - 1);
        }
        i = i - 1;
    }
    None
}

// ─── errors ──────────────────────────────────────────────────────────────────

/// Something a workflow refers to that couldn't be resolved while lowering.
#[derive(Debug)]
pub struct LowerError {
    pub site: ErrorSite,
    pub message: String,
}

/// Where a [`LowerError`] was written, so that it can be pointed at in the
/// source.
#[allow(inconsistent_fields)]
#[derive(Debug)]
pub enum ErrorSite {
    /// An `inherit` reference in the file being lowered, as written.
    InheritRef(String),
    /// Somewhere inside a file reached through a `use` import.
    Import(String),
    /// A bare `step` reference in a job body.
    StepRef { stage: String, job: String, step: String },
    /// A bare `step` reference in a template body.
    TemplateStepRef {
        /// The stage the template is defined in; none at the top level.
        stage: Option<String>,
        template: String,
        step: String,
    },
}

/// Where an error was written, as plain values.
pub enum SiteView {
    InheritRef(Seq<char>),
    Import(Seq<char>),
    StepRef(Seq<char>, Seq<char>, Seq<char>),
    TemplateStepRef(Option<Seq<char>>, Seq<char>, Seq<char>),
}

pub open spec fn site_view(s: ErrorSite) -> SiteView {
    match s {
        ErrorSite::InheritRef(x) => SiteView::InheritRef(x@),
        ErrorSite::Import(x) => SiteView::Import(x@),
        ErrorSite::StepRef { stage, job, step } => SiteView::StepRef(stage@, job@, step@),
        ErrorSite::TemplateStepRef { stage, template, step } => SiteView::TemplateStepRef(opt_view(stage), template@, step@),
    }
}

/// An error as plain values: where it was written, and its message.
pub open spec fn error_view(e: LowerError) -> (SiteView, Seq<char>) {
    (site_view(e.site), e.message@)
}

pub open spec fn errors_view(v: Seq<LowerError>) -> Seq<(SiteView, Seq<char>)> {
    v.map_values(|e: LowerError| error_view(e))
}

/// `es` with `e` added, unless an equal error is there already.
pub open spec fn add_error(es: Seq<(SiteView, Seq<char>)>, e: (SiteView, Seq<char>)) -> Seq<(SiteView, Seq<char>)> {
    if es.contains(e) {
        es
    } else {
        es.push(e)
    }
}

/// A message about something in `file`, prefixed with where it is.
pub open spec fn in_file(file: Seq<char>, message: Seq<char>) -> Seq<char> {
    "in `"@ + file + "`: "@ + message
}

/// The error for an `inherit` reference written in `file`: at the reference
/// itself in the root file, and at the file for an imported one, whose name
/// then leads the message.
pub open spec fn inherit_error(root: Seq<char>, file: Seq<char>, reference: Seq<char>, message: Seq<char>) -> (
    SiteView,
    Seq<char>,
) {
    if file == root {
        (SiteView::InheritRef(reference), message)
    } else {
        (SiteView::Import(file), in_file(file, message))
    }
}

/// How a template is named in messages: `stage.name`, or `name` at the top
/// level.
pub open spec fn template_display_name(key: (Option<Seq<char>>, Seq<char>)) -> Seq<char> {
    match key.0 {
        Some(stage) => stage + "."@ + key.1,
        None => key.1,
    }
}

pub open spec fn template_step_message(key: (Option<Seq<char>>, Seq<char>), step: Seq<char>) -> Seq<char> {
    "template `"@ + template_display_name(key) + "` uses step `"@ + step + "`, but no template it inherits defines it"@
}

/// The error for a bare `step` reference in the template `key` of `file`
/// that nothing it inherits defines.
pub open spec fn template_step_error(root: Seq<char>, file: Seq<char>, key: (Option<Seq<char>>, Seq<char>), step: Seq<char>) -> (
    SiteView,
    Seq<char>,
) {
    if file == root {
        (SiteView::TemplateStepRef(key.0, key.1, step), template_step_message(key, step))
    } else {
        (SiteView::Import(file), in_file(file, template_step_message(key, step)))
    }
}

fn site_eq(a: &ErrorSite, b: &ErrorSite) -> (r: bool)
    ensures
        r == (site_view(*a) == site_view(*b)),
{
    match (a, b) {
        (ErrorSite::InheritRef(x), ErrorSite::InheritRef(y)) => crate::text::str_eq(x.as_str(), y.as_str()),
        (ErrorSite::Import(x), ErrorSite::Import(y)) => crate::text::str_eq(x.as_str(), y.as_str()),
        (ErrorSite::StepRef { stage: s1, job: j1, step: p1 }, ErrorSite::StepRef { stage: s2, job: j2, step: p2 }) =>
            crate::text::str_eq(s1.as_str(), s2.as_str()) && crate::text::str_eq(j1.as_str(), j2.as_str())
                && crate::text::str_eq(p1.as_str(), p2.as_str()),
        (
            ErrorSite::TemplateStepRef { stage: s1, template: t1, step: p1 },
            ErrorSite::TemplateStepRef { stage: s2, template: t2, step: p2 },
        ) => opt_str_eq(s1, s2) && crate::text::str_eq(t1.as_str(), t2.as_str())
            && crate::text::str_eq(p1.as_str(), p2.as_str()),
        _ => false,
    }
}

/// `true` if an error of the same site and message is already in `errors`.
fn already_reported(errors: &Vec<LowerError>, e: &LowerError) -> (r: bool)
    ensures
        r == errors_view(errors@).contains(error_view(*e)),
{
    let mut i: usize = 0;
    while i < errors.len()
        invariant
            0 <= i <= errors@.len(),
            forall|k: int| 0 <= k < i ==> errors_view(errors@)[k] != error_view(*e),
        decreases errors@.len() - i,
    {
        assert(errors_view(errors@)[i as int] == error_view(errors@[i as int]));
        if site_eq(&errors[i].site, &e.site) && crate::text::str_eq(errors[i].message.as_str(), e.message.as_str()) {
            assert(errors_view(errors@)[i as int] == error_view(*e));
            return true;
        }
        i = i + 1;
    }
    false
}

/// `true` when the site is in the file being lowered and names a job step
/// or a template step.
pub open spec fn is_step_site(s: ErrorSite) -> bool {
    s is StepRef || s is TemplateStepRef
}

/// A file lowering may read: its path, and its text, or none when it exists
/// but can't be read.
#[derive(Debug)]
pub struct SourceFile {
    pub path: String,
    pub text: Option<String>,
}

// ─── resolving inheritance ───────────────────────────────────────────────────

/// Some template of `raw` has the key `k`.
pub open spec fn has_entry(raw: Seq<TemplateEntry>, k: (Option<Seq<char>>, Seq<char>)) -> bool {
    exists|i: int| 0 <= i < raw.len() && #[trigger] key_view(raw[i].key) == k
}

/// The key `stage.name` names, or the top-level template `name`.
pub open spec fn spec_qualified_key(name: Seq<char>) -> (Option<Seq<char>>, Seq<char>) {
    match crate::text::spec_split_once(name, '.') {
        Some((stage, template)) => (Some(stage), template),
        None => (None, name),
    }
}

/// The template an unqualified `name` refers to inside `context_stage` of a
/// file whose templates are `raw`: the stage's own when it has one, and the
/// top-level one otherwise.
pub open spec fn spec_local_key(raw: Seq<TemplateEntry>, name: Seq<char>, context_stage: Option<Seq<char>>) -> (
    Option<Seq<char>>,
    Seq<char>,
) {
    match crate::text::spec_split_once(name, '.') {
        Some((stage, template)) => (Some(stage), template),
        None => if context_stage is Some && has_entry(raw, (context_stage, name)) {
            (context_stage, name)
        } else {
            (None, name)
        },
    }
}

/// What following `import_name/rest` may give: nothing unless imports are
/// followed and the file has an import of that name; otherwise a file the
/// last such import refers to, holding the template `rest` names.
pub open spec fn imported_target_ok(
    imports_allowed: bool,
    imports: Seq<(String, String)>,
    import_name: Seq<char>,
    rest: Seq<char>,
    files: Seq<FileTemplates>,
    r: Option<(usize, TemplateKey)>,
) -> bool {
    &&& !imports_allowed ==> r is None
    &&& !has_import(imports, import_name) ==> r is None
    &&& r matches Some((i, k)) ==> {
        &&& i < files.len()
        &&& last_import_to(imports, import_name, files[i as int].path@)
        &&& key_view(k) == spec_qualified_key(rest)
        &&& has_entry(files[i as int].raw@, key_view(k))
    }
}

/// Index of the first of `files` at `path`, or their number if none is.
pub open spec fn first_file(files: Seq<FileTemplates>, path: Seq<char>, from: int) -> int
    decreases files.len() - from,
{
    if from < 0 || from >= files.len() {
        files.len() as int
    } else if files[from].path@ == path {
        from
    } else {
        first_file(files, path, from + 1)
    }
}

/// Index of the first of `sources` at `path`, or their number if none is.
pub open spec fn first_source(sources: Seq<SourceFile>, path: Seq<char>, from: int) -> int
    decreases sources.len() - from,
{
    if from < 0 || from >= sources.len() {
        sources.len() as int
    } else if sources[from].path@ == path {
        from
    } else {
        first_source(sources, path, from + 1)
    }
}

proof fn lemma_first_file_bound(files: Seq<FileTemplates>, path: Seq<char>, from: int)
    ensures
        first_file(files, path, from) <= files.len(),
        0 <= first_file(files, path, from),
    decreases files.len() - from,
{
    if 0 <= from < files.len() {
        lemma_first_file_bound(files, path, from + 1);
    }
}

proof fn lemma_first_source_bound(sources: Seq<SourceFile>, path: Seq<char>, from: int)
    ensures
        first_source(sources, path, from) <= sources.len(),
        0 <= first_source(sources, path, from),
    decreases sources.len() - from,
{
    if 0 <= from < sources.len() {
        lemma_first_source_bound(sources, path, from + 1);
    }
}

/// A file at `path` that isn't among `files` becomes the first one there once
/// it is added at the end.
proof fn lemma_first_file_push(files: Seq<FileTemplates>, f: FileTemplates, path: Seq<char>, from: int)
    requires
        0 <= from <= files.len(),
        first_file(files, path, from) == files.len(),
        f.path@ == path,
    ensures
        first_file(files.push(f), path, from) == files.len(),
    decreases files.len() - from,
{
    if from < files.len() {
        assert(files.push(f)[from] == files[from]);
        lemma_first_file_push(files, f, path, from + 1);
    }
}

/// What a template contributes, given `ds`, the data each template it
/// inherits contributes in order: those laid over each other, then its own
/// data on top, with the steps its body picks from the inherited ones (all of
/// them when it has no body).
pub open spec fn template_data_from(e: TemplateEntry, ds: Seq<crate::merge::DataView>) -> crate::merge::DataView {
    let inherited = merge_all(ds);
    let merged = crate::merge::spec_merge_data(inherited, e.own@);
    let steps = match body_view(e.body) {
        None => inherited.steps,
        Some(items) => spec_resolve_steps(items, inherited.steps, explicit_names(items, items.len() as int), items.len() as int).0,
    };
    crate::merge::DataView { steps, ..merged }
}

/// `d` is what the template `e` contributes once each name it inherits is
/// resolved to some data.
pub open spec fn template_resolved(e: TemplateEntry, d: crate::merge::DataView) -> bool {
    exists|ds: Seq<crate::merge::DataView>| ds.len() == e.inherit_names@.len() && #[trigger] template_data_from(e, ds) == d
}

/// `d` is what some template `key` of a loaded file at `path` contributes.
pub open spec fn loaded_template_result(
    files: Seq<FileTemplates>,
    path: Seq<char>,
    key: (Option<Seq<char>>, Seq<char>),
    d: crate::merge::DataView,
) -> bool {
    exists|f: int, e: int|
        #![trigger files[f].raw@[e]]
        0 <= f < files.len() && 0 <= e < files[f].raw@.len() && files[f].path@ == path
            && key_view(files[f].raw@[e].key) == key && template_resolved(files[f].raw@[e], d)
}

proof fn lemma_loaded_grow(
    files0: Seq<FileTemplates>,
    files1: Seq<FileTemplates>,
    path: Seq<char>,
    key: (Option<Seq<char>>, Seq<char>),
    d: crate::merge::DataView,
)
    requires
        loaded_template_result(files0, path, key, d),
        files0.len() <= files1.len(),
        forall|i: int| 0 <= i < files0.len() ==> #[trigger] files1[i] == files0[i],
    ensures
        loaded_template_result(files1, path, key, d),
{
    let (f, e) = choose|f: int, e: int|
        #![trigger files0[f].raw@[e]]
        0 <= f < files0.len() && 0 <= e < files0[f].raw@.len() && files0[f].path@ == path
            && key_view(files0[f].raw@[e].key) == key && template_resolved(files0[f].raw@[e], d);
    assert(files1[f] == files0[f]);
    assert(files1[f].raw@[e] == files0[f].raw@[e]);
}

/// `a` is where `b` starts.
pub open spec fn is_prefix<T>(a: Seq<T>, b: Seq<T>) -> bool {
    a.len() <= b.len() && forall|i: int| 0 <= i < a.len() ==> #[trigger] b[i] == a[i]
}

/// The resolved data `m` is that of template `key` of the file at `path`.
pub open spec fn memo_matches(m: (String, TemplateKey, TemplateData), path: Seq<char>, key: (Option<Seq<char>>, Seq<char>)) -> bool {
    m.0@ == path && key_view(m.1) == key
}

/// The reason given for a cross-file name whose import name `imp` isn't
/// among the file's imports.
pub open spec fn no_import_message(imp: Seq<char>) -> Seq<char> {
    "inherit references import `"@ + imp + "`, but no such import exists in the `use` block"@
}

/// The reason given when the file `path` that the import `imp` refers to
/// exists but can't be read.
pub open spec fn unreadable_message(imp: Seq<char>, path: Seq<char>) -> Seq<char> {
    "import `"@ + imp + "` references `"@ + path + "`, but that file cannot be read"@
}

/// The reason given when the imported file has no template `key`.
pub open spec fn not_found_message(key: (Option<Seq<char>>, Seq<char>), imp: Seq<char>) -> Seq<char> {
    match key.0 {
        Some(stage) => "template `"@ + key.1 + "` not found in stage `"@ + stage + "` of import `"@ + imp + "`"@,
        None => "top-level template `"@ + key.1 + "` not found in import `"@ + imp + "`"@,
    }
}

/// `ii` is the last import of `imports` named `imp`.
pub open spec fn is_last_import(imports: Seq<(String, String)>, imp: Seq<char>, ii: int) -> bool {
    &&& 0 <= ii < imports.len()
    &&& imports[ii].0@ == imp
    &&& forall|j: int| ii < j < imports.len() ==> #[trigger] imports[j].0@ != imp
}

/// Template `key` of the file at `path` has been resolved already.
pub open spec fn resolved_any(resolved: Seq<(String, TemplateKey, TemplateData)>, path: Seq<char>, key: (Option<Seq<char>>, Seq<char>)) -> bool {
    exists|i: int| 0 <= i < resolved.len() && #[trigger] memo_matches(resolved[i], path, key)
}

proof fn lemma_has_import_names(imports: Seq<(String, String)>, n: Seq<char>)
    ensures
        has_import(imports, n) == imports.map_values(|p: (String, String)| p.0@).contains(n),
{
    let ns = imports.map_values(|p: (String, String)| p.0@);
    if has_import(imports, n) {
        let i = choose|i: int| 0 <= i < imports.len() && #[trigger] imports[i].0@ == n;
        assert(ns[i] == n);
    }
    if ns.contains(n) {
        let i = choose|i: int| 0 <= i < ns.len() && ns[i] == n;
        assert(imports[i].0@ == n);
    }
}

/// Template `key` of the file `path` is among those being resolved.
pub open spec fn in_stack(stack: Seq<(String, TemplateKey)>, path: Seq<char>, key: (Option<Seq<char>>, Seq<char>)) -> bool {
    exists|j: int| 0 <= j < stack.len() && #[trigger] stack[j].0@ == path && key_view(stack[j].1) == key
}

/// No entry of `resolved` from `from` on is for a template of `stack`.
pub open spec fn fresh_after(stack: Seq<(String, TemplateKey)>, from: int, resolved: Seq<(String, TemplateKey, TemplateData)>) -> bool {
    forall|i: int| from <= i < resolved.len() ==> !in_stack(stack, #[trigger] resolved[i].0@, key_view(resolved[i].1))
}

/// Some import of `imports` has the name `name`.
pub open spec fn has_import(imports: Seq<(String, String)>, name: Seq<char>) -> bool {
    exists|i: int| 0 <= i < imports.len() && #[trigger] imports[i].0@ == name
}

/// `target` is the file the last import named `name` refers to.
pub open spec fn last_import_to(imports: Seq<(String, String)>, name: Seq<char>, target: Seq<char>) -> bool {
    exists|i: int| #![trigger imports[i]]
        0 <= i < imports.len() && imports[i].0@ == name && imports[i].1@ == target
            && forall|j: int| i < j < imports.len() ==> #[trigger] imports[j].0@ != name
}



/// Resolves `inherit` references, reading imported files as it goes.
///
/// Templates are resolved in the file they are written in, so an imported
/// template's own `inherit` chain, including references through that file's
/// `use` imports, is applied before it reaches the job inheriting it.
struct TemplateResolver<'s> {
    root: String,
    files: Vec<FileTemplates>,
    sources: &'s Vec<SourceFile>,
    resolved: Vec<(String, TemplateKey, TemplateData)>,
    /// The resolution path, used to break inheritance cycles.
    stack: Vec<(String, TemplateKey)>,
    /// Whether references into other files may be followed.
    imports_allowed: bool,
    errors: Vec<LowerError>,
}

impl<'s> TemplateResolver<'s> {
    /// The errors so far are all of the kinds `imports_allowed` permits: with
    /// imports not followed, only step references in the root file.
    closed spec fn errors_ok(&self) -> bool {
        !self.imports_allowed ==> forall|i: int| 0 <= i < self.errors@.len() ==> is_step_site(#[trigger] self.errors@[i].site)
    }

    /// Each resolved template's data is what some template of that name in
    /// a loaded file at that path contributes.
    closed spec fn memo_ok(&self) -> bool {
        forall|i: int| 0 <= i < self.resolved@.len() ==> loaded_template_result(
            self.files@,
            #[trigger] self.resolved@[i].0@,
            key_view(self.resolved@[i].1),
            self.resolved@[i].2@,
        )
    }

    /// Following the name `name`, written as `imp/rest` in the loaded file
    /// `fi` at `file`, from this state gives `r` and leaves the resolver as
    /// `after`. Without an import `imp`, nothing, reported. Otherwise the
    /// file its last import refers to is loaded: if that fails, nothing,
    /// reported when the file exists but can't be read; otherwise the
    /// template `rest` names in it, or nothing, reported, when it has none.
    closed spec fn follows_import(
        &self,
        after: &Self,
        file: Seq<char>,
        name: Seq<char>,
        imp: Seq<char>,
        rest: Seq<char>,
        fi: int,
        r: Option<(usize, TemplateKey)>,
    ) -> bool {
        let imports = self.files@[fi].imports@;
        let key = spec_qualified_key(rest);
        let before = errors_view(self.errors@);
        let reported = |message: Seq<char>| add_error(before, inherit_error(self.root@, file, name, message));
        &&& !has_import(imports, imp) ==> r is None && errors_view(after.errors@) == reported(no_import_message(imp))
        &&& forall|ii: int| #[trigger] is_last_import(imports, imp, ii) ==> {
            let path = imports[ii].1@;
            let lf = first_file(self.files@, path, 0);
            let ls = first_source(self.sources@, path, 0);
            let loadable = lf < self.files@.len() || (ls < self.sources@.len() && self.sources@[ls].text is Some);
            let ti = if lf < self.files@.len() { lf } else { self.files@.len() as int };
            &&& !loadable ==> r is None && errors_view(after.errors@) == (if ls < self.sources@.len() {
                reported(unreadable_message(imp, path))
            } else {
                before
            })
            &&& loadable && has_entry(after.files@[ti].raw@, key) ==> (r matches Some((i, k)) && i == ti && key_view(k) == key)
                && after.errors@ == self.errors@
            &&& loadable && !has_entry(after.files@[ti].raw@, key) ==> r is None && errors_view(after.errors@) == reported(
                not_found_message(key, imp),
            )
        }
    }

    /// Imports aren't followed, or no template of the root file names a
    /// template in another file: the root file is the only one loaded, and
    /// everything resolved or being resolved is in it.
    closed spec fn local_mode(&self) -> bool {
        &&& (!self.imports_allowed || local_names(self.evs(), self.files@[0].imports@.map_values(|p: (String, String)| p.0@)))
        &&& self.files@.len() == 1
        &&& self.files@[0].path@ == self.root@
        &&& forall|i: int| 0 <= i < self.resolved@.len() ==> #[trigger] self.resolved@[i].0@ == self.root@
        &&& forall|i: int| 0 <= i < self.stack@.len() ==> #[trigger] self.stack@[i].0@ == self.root@
    }

    /// The resolved templates and the errors, as plain values.
    closed spec fn state_view(&self) -> ResolveState {
        ResolveState {
            memo: self.resolved@.map_values(|m: (String, TemplateKey, TemplateData)| (key_view(m.1), m.2@)),
            errors: errors_view(self.errors@),
        }
    }

    /// The keys of the templates being resolved.
    closed spec fn stack_keys(&self) -> Seq<KeyView> {
        self.stack@.map_values(|e: (String, TemplateKey)| key_view(e.1))
    }

    /// The import names of the root file, when imports are followed.
    closed spec fn import_names(&self) -> Option<Seq<Seq<char>>> {
        if self.imports_allowed {
            Some(self.files@[0].imports@.map_values(|p: (String, String)| p.0@))
        } else {
            None
        }
    }

    /// The entries of the root file.
    closed spec fn evs(&self) -> Seq<EntryView> {
        entries_view(self.files@[0].raw@)
    }

    /// Template `key` of the file at `path` is being resolved.
    closed spec fn stacked(&self, path: Seq<char>, key: (Option<Seq<char>>, Seq<char>)) -> bool {
        exists|j: int| 0 <= j < self.stack@.len() && #[trigger] self.stack@[j].0@ == path && key_view(self.stack@[j].1) == key
    }

    /// Resolving template `key` of the loaded file `fi` from this state gives
    /// `r` and leaves the resolver as `after`: the data remembered first for
    /// it, if any; otherwise nothing for one being resolved already (a cycle
    /// of inheritance), one out of `fuel` or one that doesn't exist; and
    /// otherwise what the last template of that name contributes, which is
    /// then remembered. Only in that last case is anything reported.
    closed spec fn resolves_key_to(
        &self,
        fi: int,
        key: (Option<Seq<char>>, Seq<char>),
        fuel: int,
        after: &Self,
        r: crate::merge::DataView,
    ) -> bool {
        let path = self.files@[fi].path@;
        let raw = self.files@[fi].raw@;
        let memo = resolved_any(self.resolved@, path, key);
        let stacked = self.stacked(path, key);
        &&& memo ==> exists|j: int|
            0 <= j < self.resolved@.len() && #[trigger] memo_matches(self.resolved@[j], path, key)
                && (forall|i: int| 0 <= i < j ==> !memo_matches(#[trigger] self.resolved@[i], path, key))
                && r == self.resolved@[j].2@
        &&& !memo && (stacked || fuel == 0 || !has_entry(raw, key)) ==> r == crate::merge::empty_data()
        &&& memo || stacked || fuel == 0 || !has_entry(raw, key) ==> after.errors@ == self.errors@ && after.resolved@ == self.resolved@
        &&& !memo && !stacked && fuel > 0 && has_entry(raw, key) ==> {
            &&& exists|e: int|
                0 <= e < raw.len() && key_view(#[trigger] raw[e].key) == key
                    && (forall|j: int| e < j < raw.len() ==> key_view(#[trigger] raw[j].key) != key)
                    && template_resolved(raw[e], r)
            &&& after.resolved@.len() > 0
            &&& memo_matches(after.resolved@.last(), path, key)
            &&& after.resolved@.last().2@ == r
            &&& forall|i: int| 0 <= i < after.resolved@.len() - 1 ==> !memo_matches(#[trigger] after.resolved@[i], path, key)
        }
    }

    /// Position of the loaded file `path`.
    fn file_pos(&self, path: &str) -> (r: Option<usize>)
        ensures
            r matches Some(i) ==> i < self.files@.len() && self.files@[i as int].path@ == path@,
            r matches Some(i) ==> i == first_file(self.files@, path@, 0),
            r is None ==> first_file(self.files@, path@, 0) == self.files@.len(),
    {
        let mut i: usize = 0;
        while i < self.files.len()
            invariant
                0 <= i <= self.files@.len(),
                first_file(self.files@, path@, 0) == first_file(self.files@, path@, i as int),
            decreases self.files@.len() - i,
        {
            if crate::text::str_eq(self.files[i].path.as_str(), path) {
                return Some(i);
            }
            i = i + 1;
        }
        None
    }

    /// Position of the source `path`, if it exists at all.
    fn source_pos(&self, path: &str) -> (r: Option<usize>)
        ensures
            r matches Some(i) ==> i < self.sources@.len() && self.sources@[i as int].path@ == path@,
            r matches Some(i) ==> i == first_source(self.sources@, path@, 0),
            r is None ==> first_source(self.sources@, path@, 0) == self.sources@.len(),
    {
        let mut i: usize = 0;
        while i < self.sources.len()
            invariant
                0 <= i <= self.sources@.len(),
                first_source(self.sources@, path@, 0) == first_source(self.sources@, path@, i as int),
            decreases self.sources@.len() - i,
        {
            if crate::text::str_eq(self.sources[i].path.as_str(), path) {
                return Some(i);
            }
            i = i + 1;
        }
        None
    }

    /// Read and parse an imported file, keeping it for later references.
    fn load(&mut self, path: &str) -> (r: Option<usize>)
        ensures
            final(self).imports_allowed == old(self).imports_allowed,
            final(self).errors@ == old(self).errors@,
            final(self).root@ == old(self).root@,
            final(self).sources == old(self).sources,
            final(self).resolved@ == old(self).resolved@,
            final(self).stack@ == old(self).stack@,
            final(self).files@.len() >= old(self).files@.len(),
            forall|i: int| 0 <= i < old(self).files@.len() ==> #[trigger] final(self).files@[i] == old(self).files@[i],
            r matches Some(i) ==> i < final(self).files@.len(),
            r matches Some(i) ==> final(self).files@[i as int].path@ == path@,
            ({
                let fi = first_file(old(self).files@, path@, 0);
                let si = first_source(old(self).sources@, path@, 0);
                &&& fi < old(self).files@.len() ==> r is Some && r.unwrap() == fi && final(self).files@ == old(self).files@
                &&& fi == old(self).files@.len() ==> (r is Some <==> si < old(self).sources@.len()
                    && old(self).sources@[si].text is Some)
                &&& fi == old(self).files@.len() && r is None ==> final(self).files@ == old(self).files@
                &&& fi == old(self).files@.len() && r is Some ==> final(self).files@.len() == old(self).files@.len() + 1
                    && r.unwrap() == old(self).files@.len()
            }),
            r matches Some(i) ==> i == first_file(final(self).files@, path@, 0),
    {
        match self.file_pos(path) {
            Some(i) => return Some(i),
            None => {},
        }
        let si = match self.source_pos(path) {
            Some(i) => i,
            None => return None,
        };
        let text = match &self.sources[si].text {
            Some(t) => t,
            None => return None,
        };
        let parsed = crate::parser::parse(text.as_str());
        let root = match Root::cast(parsed.syntax()) {
            Some(r) => r,
            None => return None,
        };
        let ft = FileTemplates::from_root(&root, path);
        let ghost files0 = self.files@;
        self.files.push(ft);
        proof {
            lemma_first_file_push(files0, ft, path@, 0);
        }
        Some(self.files.len() - 1)
    }

    /// Report an `inherit` reference written in `file` that can't be
    /// followed, unless the same error has been reported already.
    fn error(&mut self, file: &str, reference: &str, message: String)
        requires
            old(self).imports_allowed,
        ensures
            final(self).errors_ok(),
            final(self).imports_allowed == old(self).imports_allowed,
            final(self).root@ == old(self).root@,
            final(self).files@ == old(self).files@,
            final(self).sources == old(self).sources,
            final(self).resolved@ == old(self).resolved@,
            final(self).stack@ == old(self).stack@,
            errors_view(final(self).errors@) == add_error(
                errors_view(old(self).errors@),
                inherit_error(old(self).root@, file@, reference@, message@),
            ),
    {
        let ghost m0 = message@;
        let error = if crate::text::str_eq(file, self.root.as_str()) {
            LowerError { site: ErrorSite::InheritRef(reference.to_owned()), message }
        } else {
            let mut m = String::new();
            m.append("in `");
            m.append(file);
            m.append("`: ");
            m.append(message.as_str());
            assert(m@ =~= in_file(file@, m0));
            LowerError { site: ErrorSite::Import(file.to_owned()), message: m }
        };
        assert(error_view(error) == inherit_error(self.root@, file@, reference@, m0));
        // The same reference is resolved once per job that inherits it.
        if !already_reported(&self.errors, &error) {
            let ghost e0 = self.errors@;
            self.errors.push(error);
            assert(errors_view(self.errors@) =~= errors_view(e0).push(error_view(error)));
        }
    }

    /// Report a bare `step` reference in a template that names a step none of
    /// its inherited templates define.
    fn step_error(&mut self, file: &str, key: &TemplateKey, step: &str)
        requires
            old(self).errors_ok(),
            !old(self).imports_allowed ==> file@ == old(self).root@,
        ensures
            final(self).errors_ok(),
            final(self).imports_allowed == old(self).imports_allowed,
            final(self).root@ == old(self).root@,
            final(self).files@ == old(self).files@,
            final(self).sources == old(self).sources,
            final(self).resolved@ == old(self).resolved@,
            final(self).stack@ == old(self).stack@,
            errors_view(final(self).errors@) == add_error(
                errors_view(old(self).errors@),
                template_step_error(old(self).root@, file@, key_view(*key), step@),
            ),
    {
        let mut name = String::new();
        match &key.stage {
            Some(stage) => {
                name.append(stage.as_str());
                name.append(".");
                name.append(key.name.as_str());
            },
            None => {
                name.append(key.name.as_str());
            },
        }
        let mut message = String::new();
        message.append("template `");
        message.append(name.as_str());
        message.append("` uses step `");
        message.append(step);
        message.append("`, but no template it inherits defines it");
        assert(name@ =~= template_display_name(key_view(*key)));
        assert(message@ =~= template_step_message(key_view(*key), step@));
        let ghost m0 = message@;
        let error = if crate::text::str_eq(file, self.root.as_str()) {
            LowerError {
                site: ErrorSite::TemplateStepRef {
                    stage: crate::ir::clone_opt(&key.stage),
                    template: key.name.clone(),
                    step: step.to_owned(),
                },
                message,
            }
        } else {
            let mut m = String::new();
            m.append("in `");
            m.append(file);
            m.append("`: ");
            m.append(message.as_str());
            assert(m@ =~= in_file(file@, m0));
            LowerError { site: ErrorSite::Import(file.to_owned()), message: m }
        };
        assert(error_view(error) == template_step_error(self.root@, file@, key_view(*key), step@));
        if !already_reported(&self.errors, &error) {
            let ghost e0 = self.errors@;
            self.errors.push(error);
            assert(errors_view(self.errors@) =~= errors_view(e0).push(error_view(error)));
            proof {
                assert forall|i: int| 0 <= i < self.errors@.len() && !self.imports_allowed implies is_step_site(#[trigger] self.errors@[i].site) by {
                    if i < e0.len() {
                        assert(self.errors@[i] == e0[i]);
                    }
                }
            }
        }
    }

    /// An unqualified name is the stage's own template when it has one, and a
    /// top-level template otherwise. `stage.name` names another stage's.
    fn local_key(&self, fi: usize, name: &str, context_stage: &Option<String>) -> (r: TemplateKey)
        requires
            fi < self.files@.len(),
        ensures
            key_view(r) == spec_local_key(self.files@[fi as int].raw@, name@, opt_view(*context_stage)),
    {
        match crate::text::split_once(name, '.') {
            Some((stage_name, template_name)) => {
                return TemplateKey { stage: Some(stage_name), name: template_name };
            },
            None => {},
        }
        let in_stage = TemplateKey { stage: crate::ir::clone_opt(context_stage), name: name.to_owned() };
        let found = find_entry(&self.files[fi].raw, &in_stage);
        proof {
            let raw = self.files@[fi as int].raw@;
            if has_entry(raw, key_view(in_stage)) {
                let i = choose|i: int| 0 <= i < raw.len() && #[trigger] key_view(raw[i].key) == key_view(in_stage);
                assert(key_view(raw[i].key) == key_view(in_stage));
            }
            match found {
                Some(i) => {
                    assert(key_view(raw[i as int].key) == key_view(in_stage));
                },
                None => {},
            }
        }
        if context_stage.is_some() && found.is_some() {
            return in_stage;
        }
        TemplateKey { stage: None, name: name.to_owned() }
    }

    /// The file and template an `inherit` name refers to, reporting an error
    /// if a cross-file reference can't be followed.
    fn target_of(&mut self, file: &str, name: &str, context_stage: &Option<String>) -> (r: Option<(usize, TemplateKey)>)
        requires
            old(self).errors_ok(),
        ensures
            final(self).errors_ok(),
            final(self).imports_allowed == old(self).imports_allowed,
            final(self).root@ == old(self).root@,
            final(self).files@.len() >= old(self).files@.len(),
            forall|i: int| 0 <= i < old(self).files@.len() ==> #[trigger] final(self).files@[i] == old(self).files@[i],
            final(self).sources == old(self).sources,
            final(self).resolved@ == old(self).resolved@,
            final(self).stack@ == old(self).stack@,
            crate::text::spec_split_once(name@, '/') is None || !old(self).imports_allowed ==> final(self).files@ == old(self).files@,
            first_file(old(self).files@, file@, 0) < old(self).files@.len() && crate::text::spec_split_once(name@, '/') is Some
                && !has_import(old(self).files@[first_file(old(self).files@, file@, 0)].imports@, crate::text::spec_split_once(name@, '/').unwrap().0)
                ==> final(self).files@ == old(self).files@,
            crate::text::spec_split_once(name@, '/') is None || !old(self).imports_allowed
                || first_file(old(self).files@, file@, 0) == old(self).files@.len() ==> final(self).errors@ == old(self).errors@,
            first_file(old(self).files@, file@, 0) < old(self).files@.len() && old(self).imports_allowed
                && crate::text::spec_split_once(name@, '/') is Some ==> old(self).follows_import(
                &*final(self),
                file@,
                name@,
                crate::text::spec_split_once(name@, '/').unwrap().0,
                crate::text::spec_split_once(name@, '/').unwrap().1,
                first_file(old(self).files@, file@, 0),
                r,
            ),
            r matches Some((i, _)) ==> i < final(self).files@.len(),
            r matches Some((i, _)) ==> (!final(self).imports_allowed ==> final(self).files@[i as int].path@ == file@),
            ({
                let files0 = old(self).files@;
                let fi = first_file(files0, file@, 0);
                &&& fi == files0.len() ==> r is None
                &&& fi < files0.len() && crate::text::spec_split_once(name@, '/') is None ==> (r matches Some((i, k))
                    && i == fi && key_view(k) == spec_local_key(files0[fi].raw@, name@, opt_view(*context_stage)))
                &&& fi < files0.len() && crate::text::spec_split_once(name@, '/') is Some ==> imported_target_ok(
                    old(self).imports_allowed,
                    files0[fi].imports@,
                    crate::text::spec_split_once(name@, '/').unwrap().0,
                    crate::text::spec_split_once(name@, '/').unwrap().1,
                    final(self).files@,
                    r,
                )
            }),
    {
        let fi = match self.file_pos(file) {
            Some(i) => i,
            None => return None,
        };
        let (import_name, rest) = match crate::text::split_once(name, '/') {
            None => {
                let key = self.local_key(fi, name, context_stage);
                return Some((fi, key));
            },
            Some(p) => p,
        };
        if !self.imports_allowed {
            return None;
        }
        let ghost imports0 = self.files@[fi as int].imports@;
        let ii = match find_import(&self.files[fi].imports, import_name.as_str()) {
            Some(i) => i,
            None => {
                proof {
                    if has_import(imports0, import_name@) {
                        let j = choose|j: int| 0 <= j < imports0.len() && #[trigger] imports0[j].0@ == import_name@;
                        assert(imports0[j].0@ != import_name@);
                    }
                }
                let mut m = String::new();
                m.append("inherit references import `");
                m.append(import_name.as_str());
                m.append("`, but no such import exists in the `use` block");
                assert(m@ =~= no_import_message(import_name@));
                self.error(file, name, m);
                return None;
            },
        };
        let import_path = self.files[fi].imports[ii].1.clone();
        let ghost before = *self;
        proof {
            assert(is_last_import(imports0, import_name@, ii as int));
            assert forall|jj: int| #[trigger] is_last_import(imports0, import_name@, jj) implies jj == ii by {
                if jj < ii {
                    assert(imports0[ii as int].0@ == import_name@);
                } else if jj > ii {
                    assert(imports0[jj].0@ == import_name@);
                }
            }
            assert(has_import(imports0, import_name@));
        }
        let ti = match self.load(import_path.as_str()) {
            Some(i) => {
                proof {
                    lemma_first_file_bound(before.files@, import_path@, 0);
                    let lf = first_file(before.files@, import_path@, 0);
                    assert(i == if lf < before.files@.len() { lf } else { before.files@.len() as int });
                }
                i
            },
            None => {
                // A missing file is reported for the `use` import itself.
                if self.source_pos(import_path.as_str()).is_some() {
                    let mut m = String::new();
                    m.append("import `");
                    m.append(import_name.as_str());
                    m.append("` references `");
                    m.append(import_path.as_str());
                    m.append("`, but that file cannot be read");
                    assert(m@ =~= unreadable_message(import_name@, import_path@));
                    self.error(file, name, m);
                }
                proof {
                    assert(import_path@ == imports0[ii as int].1@);
                    assert(before.files@ == old(self).files@);
                    assert(before.errors@ == old(self).errors@);
                    assert(before.sources@ == old(self).sources@);
                    let path = imports0[ii as int].1@;
                    let lf = first_file(old(self).files@, path, 0);
                    let ls = first_source(old(self).sources@, path, 0);
                    lemma_first_file_bound(old(self).files@, path, 0);
                    lemma_first_source_bound(old(self).sources@, path, 0);
                    assert(!(lf < old(self).files@.len() || (ls < old(self).sources@.len() && old(self).sources@[ls].text is Some)));
                    assert(old(self).follows_import(
                        &*self,
                        file@,
                        name@,
                        import_name@,
                        rest@,
                        fi as int,
                        None,
                    ));
                }
                return None;
            },
        };
        let key = match crate::text::split_once(rest.as_str(), '.') {
            Some((stage_name, template_name)) => TemplateKey { stage: Some(stage_name), name: template_name },
            None => TemplateKey { stage: None, name: rest.clone() },
        };
        let found = find_entry(&self.files[ti].raw, &key);
        proof {
            match found {
                Some(e) => {
                    assert(key_view(self.files@[ti as int].raw@[e as int].key) == key_view(key));
                },
                None => {},
            }
        }
        if found.is_none() {
            let mut m = String::new();
            match &key.stage {
                Some(stage_name) => {
                    m.append("template `");
                    m.append(key.name.as_str());
                    m.append("` not found in stage `");
                    m.append(stage_name.as_str());
                    m.append("` of import `");
                    m.append(import_name.as_str());
                    m.append("`");
                    assert(m@ =~= not_found_message(key_view(key), import_name@));
                },
                None => {
                    m.append("top-level template `");
                    m.append(key.name.as_str());
                    m.append("` not found in import `");
                    m.append(import_name.as_str());
                    m.append("`");
                    assert(m@ =~= not_found_message(key_view(key), import_name@));
                },
            }
            assert(!has_entry(self.files@[ti as int].raw@, key_view(key)));
            let ghost mid = *self;
            self.error(file, name, m);
            proof {
                let path = imports0[ii as int].1@;
                lemma_first_file_bound(old(self).files@, path, 0);
                lemma_first_source_bound(old(self).sources@, path, 0);
                assert(before.files@ == old(self).files@);
                assert(before.errors@ == old(self).errors@);
                assert(before.sources@ == old(self).sources@);
                assert(mid.errors@ == old(self).errors@);
                assert(key_view(key) == spec_qualified_key(rest@));
                assert(self.files@ == mid.files@);
            }
            return None;
        }
        proof {
            assert(imports0[ii as int].1@ == import_path@);
            assert(last_import_to(imports0, import_name@, self.files@[ti as int].path@));
            assert(before.files@ == old(self).files@);
            assert(before.errors@ == old(self).errors@);
            assert(before.sources@ == old(self).sources@);
            assert(key_view(key) == spec_qualified_key(rest@));
            assert(has_entry(self.files@[ti as int].raw@, key_view(key)));
            let path = imports0[ii as int].1@;
            let lf = first_file(old(self).files@, path, 0);
            let ls = first_source(old(self).sources@, path, 0);
            lemma_first_file_bound(old(self).files@, path, 0);
            lemma_first_source_bound(old(self).sources@, path, 0);
            assert(lf < old(self).files@.len() || (ls < old(self).sources@.len() && old(self).sources@[ls].text is Some));
            assert(ti == if lf < old(self).files@.len() { lf } else { old(self).files@.len() as int });
            assert(self.errors@ == old(self).errors@);
            assert(old(self).follows_import(
                &*self,
                file@,
                name@,
                import_name@,
                rest@,
                fi as int,
                Some((ti, key)),
            ));
        }
        Some((ti, key))
    }

    /// Position of the resolved data of template `key` of file `path`.
    fn memo_pos(&self, path: &str, key: &TemplateKey) -> (r: Option<usize>)
        ensures
            r matches Some(i) ==> i < self.resolved@.len() && memo_matches(self.resolved@[i as int], path@, key_view(*key)),
            r matches Some(i) ==> forall|j: int| 0 <= j < i ==> !memo_matches(#[trigger] self.resolved@[j], path@, key_view(*key)),
            r is None ==> forall|j: int| 0 <= j < self.resolved@.len() ==> !memo_matches(#[trigger] self.resolved@[j], path@, key_view(*key)),
    {
        let mut i: usize = 0;
        while i < self.resolved.len()
            invariant
                0 <= i <= self.resolved@.len(),
                forall|j: int| 0 <= j < i ==> !memo_matches(#[trigger] self.resolved@[j], path@, key_view(*key)),
            decreases self.resolved@.len() - i,
        {
            if crate::text::str_eq(self.resolved[i].0.as_str(), path) && key_eq(&self.resolved[i].1, key) {
                return Some(i);
            }
            i = i + 1;
        }
        None
    }

    /// `true` if template `key` of file `path` is being resolved.
    fn on_stack(&self, path: &str, key: &TemplateKey) -> (r: bool)
        ensures
            r == exists|j: int| 0 <= j < self.stack@.len() && #[trigger] self.stack@[j].0@ == path@
                && key_view(self.stack@[j].1) == key_view(*key),
    {
        let mut j: usize = 0;
        while j < self.stack.len()
            invariant
                0 <= j <= self.stack@.len(),
                forall|k: int| 0 <= k < j ==> !(#[trigger] self.stack@[k].0@ == path@ && key_view(self.stack@[k].1) == key_view(*key)),
            decreases self.stack@.len() - j,
        {
            if crate::text::str_eq(self.stack[j].0.as_str(), path) && key_eq(&self.stack[j].1, key) {
                return true;
            }
            j = j + 1;
        }
        false
    }

    /// Resolve the template `key` of the loaded file `fi`, applying its own
    /// `inherit` chain first.
    ///
    /// A template that doesn't exist contributes nothing; within a file that
    /// is reported by validation. Neither does one already being resolved,
    /// which breaks inheritance cycles. `fuel` bounds the depth of the
    /// search; every template being resolved is a different one, so it never
    /// runs out when it exceeds the number of templates there are.
    #[verifier::rlimit(60)]
    #[verifier::spinoff_prover]
    fn resolve_key(&mut self, fi: usize, key: &TemplateKey, fuel: usize) -> (r: TemplateData)
        requires
            old(self).errors_ok(),
            old(self).memo_ok(),
            fi < old(self).files@.len(),
            !old(self).imports_allowed ==> old(self).files@[fi as int].path@ == old(self).root@,
        ensures
            final(self).errors_ok(),
            final(self).memo_ok(),
            final(self).imports_allowed == old(self).imports_allowed,
            final(self).root@ == old(self).root@,
            final(self).sources == old(self).sources,
            final(self).stack@ == old(self).stack@,
            is_prefix(old(self).resolved@, final(self).resolved@),
            fresh_after(old(self).stack@, old(self).resolved@.len() as int, final(self).resolved@),
            final(self).files@.len() >= old(self).files@.len(),
            forall|i: int| 0 <= i < old(self).files@.len() ==> #[trigger] final(self).files@[i] == old(self).files@[i],
            old(self).resolves_key_to(fi as int, key_view(*key), fuel as int, &*final(self), r@),
            r@ == crate::merge::empty_data() || loaded_template_result(
                final(self).files@,
                old(self).files@[fi as int].path@,
                key_view(*key),
                r@,
            ),
            (forall|e: int| 0 <= e < old(self).files@[fi as int].raw@.len()
                ==> (#[trigger] old(self).files@[fi as int].raw@[e]).inherit_names@.len() == 0)
                ==> final(self).errors@ == old(self).errors@,
            old(self).local_mode() ==> {
                &&& final(self).local_mode()
                &&& final(self).files@ == old(self).files@
                &&& (r@, final(self).state_view()) == resolve_spec(
                    old(self).evs(),
                    old(self).import_names(),
                    old(self).root@,
                    old(self).state_view(),
                    old(self).stack_keys(),
                    key_view(*key),
                    fuel as nat,
                )
            },
        decreases fuel, 0nat,
    {
        let file_path = self.files[fi].path.clone();
        let ghost path = file_path@;
        let ghost k = key_view(*key);
        let ghost raw = self.files@[fi as int].raw@;
        let ghost local = self.local_mode();
        let ghost st0 = self.state_view();
        let ghost evs = entries_view(raw);
        let ghost imps = self.import_names();
        proof {
            if local {
                assert(fi == 0);
                assert forall|j: int| 0 <= j < self.resolved@.len() implies (#[trigger] st0.memo[j]).0 == k
                    <==> memo_matches(self.resolved@[j], path, k) by {
                    assert(self.resolved@[j].0@ == self.root@);
                }
            }
        }
        match self.memo_pos(file_path.as_str(), key) {
            Some(i) => {
                assert(memo_matches(self.resolved@[i as int], path, k));
                assert(resolved_any(self.resolved@, path, k));
                proof {
                    if local {
                        lemma_memo_index(st0.memo, k, i as int, 0);
                    }
                }
                return self.resolved[i].2.copy();
            },
            None => {},
        }
        assert(!resolved_any(self.resolved@, path, k));
        proof {
            if local {
                lemma_memo_index(st0.memo, k, st0.memo.len() as int, 0);
                assert forall|j: int| 0 <= j < self.stack@.len() implies (#[trigger] self.stack_keys()[j]) == k
                    <==> (self.stack@[j].0@ == path && key_view(self.stack@[j].1) == k) by {
                    assert(self.stack@[j].0@ == self.root@);
                }
                if self.stack_keys().contains(k) {
                    let j = choose|j: int| 0 <= j < self.stack_keys().len() && self.stack_keys()[j] == k;
                    assert(self.stack_keys()[j] == k);
                }
            }
        }
        if self.on_stack(file_path.as_str(), key) {
            proof {
                if local {
                    let j = choose|j: int| 0 <= j < self.stack@.len() && #[trigger] self.stack@[j].0@ == path
                        && key_view(self.stack@[j].1) == k;
                    assert(self.stack_keys()[j] == k);
                    assert(self.stack_keys().contains(k));
                }
            }
            // Circular inheritance: break the cycle by contributing nothing.
            return TemplateData::empty();
        }
        proof {
            if local {
                assert(!self.stack_keys().contains(k)) by {
                    if self.stack_keys().contains(k) {
                        let j = choose|j: int| 0 <= j < self.stack_keys().len() && self.stack_keys()[j] == k;
                        assert(self.stack_keys()[j] == k);
                        assert(self.stack@[j].0@ == path && key_view(self.stack@[j].1) == k);
                    }
                }
            }
        }
        if fuel == 0 {
            return TemplateData::empty();
        }
        let ei = match find_entry(&self.files[fi].raw, key) {
            Some(e) => e,
            None => {
                assert(!has_entry(raw, k));
                proof {
                    assert forall|j: int| -1 < j < evs.len() implies #[trigger] evs[j].0 != k by {
                        assert(evs[j].0 == key_view(raw[j].key));
                    }
                    lemma_ev_last(evs, k, evs.len() as int, -1);
                }
                return TemplateData::empty();
            },
        };
        assert(key_view(raw[ei as int].key) == k);
        assert(has_entry(raw, k));
        proof {
            assert forall|j: int| ei < j < evs.len() implies #[trigger] evs[j].0 != k by {
                assert(evs[j].0 == key_view(raw[j].key));
            }
            assert(evs[ei as int].0 == k);
            lemma_ev_last(evs, k, evs.len() as int, ei as int);
        }
        let own = self.files[fi].raw[ei].own.copy();
        let inherit_names = crate::ir::clone_strs(&self.files[fi].raw[ei].inherit_names);
        let body = clone_body(&self.files[fi].raw[ei].body);
        let ghost files0 = self.files@;
        let ghost entry = raw[ei as int];
        let ghost stack0 = self.stack@;
        let ghost resolved0 = self.resolved@;
        assert(!resolved_any(resolved0, path, k));
        let ghost quiet = forall|e: int| 0 <= e < raw.len() ==> (#[trigger] raw[e]).inherit_names@.len() == 0;
        assert(strs_view(inherit_names@).len() == inherit_names@.len());
        assert(strs_view(entry.inherit_names@).len() == entry.inherit_names@.len());
        assert(quiet ==> inherit_names@.len() == 0);
        let top = (file_path.clone(), copy_key(key));
        let ghost top_g = top;
        let ghost sk0 = self.stack_keys();
        let ghost ev = evs[ei as int];
        let ghost names = ev.2;
        let ghost fuel1 = (fuel - 1) as nat;
        assert(ev == entry_view(entry));
        assert(names == strs_view(inherit_names@));
        self.stack.push(top);
        assert(self.stack_keys() =~= sk0.push(k));
        assert(local ==> self.local_mode());
        let errors_before = self.errors.len();
        let mut merged = TemplateData::empty();
        let ghost mut ds: Seq<crate::merge::DataView> = Seq::empty();
        let mut p: usize = 0;
        while p < inherit_names.len()
            invariant
                0 <= p <= inherit_names@.len(),
                inherit_names@.len() == entry.inherit_names@.len(),
                ds.len() == p,
                merged@ == merge_all(ds),
                self.errors_ok(),
                self.memo_ok(),
                self.imports_allowed == old(self).imports_allowed,
                self.root@ == old(self).root@,
                self.sources == old(self).sources,
                self.stack@ == stack0.push(top_g),
                is_prefix(resolved0, self.resolved@),
                fresh_after(stack0.push(top_g), resolved0.len() as int, self.resolved@),
                file_path@ == files0[fi as int].path@,
                fi < files0.len(),
                files0 == old(self).files@,
                self.files@.len() >= files0.len(),
                forall|i: int| 0 <= i < files0.len() ==> #[trigger] self.files@[i] == files0[i],
                !old(self).imports_allowed ==> files0[fi as int].path@ == old(self).root@,
                fuel > 0,
                quiet ==> inherit_names@.len() == 0,
                quiet ==> self.errors@ == old(self).errors@,
                names == strs_view(inherit_names@),
                k == key_view(*key),
                path == file_path@,
                fuel1 == (fuel - 1) as nat,
                ev == evs[ei as int],
                names == ev.2,
                ei < evs.len(),
                st0 == old(self).state_view(),
                sk0 == old(self).stack_keys(),
                local ==> self.local_mode(),
                local ==> self.files@ == files0,
                local ==> self.stack_keys() == sk0.push(k),
                local ==> evs == self.evs() && self.root@ == path,
                imps == old(self).import_names(),
                local ==> self.import_names() == imps,
                local ==> (ds, self.state_view()) == resolve_names_spec(evs, imps, path, st0, sk0.push(k), names, k.0, fuel1, p as int),
            decreases inherit_names@.len() - p,
        {
            let ghost resolved1 = self.resolved@;
            let ghost before = *self;
            let ghost ds0 = ds;
            proof {
                if local && self.imports_allowed {
                    assert(evs[ei as int].2[p as int] == names[p as int]);
                    assert(names[p as int] == inherit_names@[p as int]@);
                }
            }
            let data = self.resolve(file_path.as_str(), inherit_names[p].as_str(), &key.stage, fuel - 1);
            proof {
                if local {
                    assert(names[p as int] == inherit_names@[p as int]@);
                    assert(before.stack_keys() == sk0.push(k));
                    assert(before.evs() == evs);
                    assert(opt_view(key.stage) == k.0);
                    assert(before.local_mode());
                    assert(before.root@ == path);
                    assert(fuel1 == (fuel - 1) as nat);
                    let rn = resolve_name_spec(evs, imps, path, before.state_view(), sk0.push(k), names[p as int], k.0, fuel1);
                    assert((data@, self.state_view()) == resolve_name_spec(before.evs(), before.import_names(), before.root@, before.state_view(), before.stack_keys(), inherit_names@[p as int]@, opt_view(key.stage), fuel1));
                    assert((data@, self.state_view()) == rn);
                    assert(resolve_names_spec(evs, imps, path, st0, sk0.push(k), names, k.0, fuel1, p + 1) == (ds0.push(rn.0), rn.1));
                }
                assert(ds.push(data@).drop_last() =~= ds);
                ds = ds.push(data@);
                assert forall|i: int| 0 <= i < resolved0.len() implies #[trigger] self.resolved@[i] == resolved0[i] by {
                    assert(resolved1[i] == resolved0[i]);
                }
                assert forall|i: int| resolved0.len() <= i < self.resolved@.len() implies !in_stack(
                    stack0.push(top_g),
                    #[trigger] self.resolved@[i].0@,
                    key_view(self.resolved@[i].1),
                ) by {
                    if i < resolved1.len() {
                        assert(self.resolved@[i] == resolved1[i]);
                    }
                }
            }
            merged = crate::merge::merge_template_data(merged, data);
            p = p + 1;
        }
        let inherits_resolved = self.errors.len() == errors_before;
        let ghost st1 = self.state_view();
        let ghost resolved_mid = self.resolved@;
        assert(st1.errors.len() == self.errors@.len());
        assert(st0.errors.len() == old(self).errors@.len());
        let ghost expected_errors = if names.len() > 0 && st1.errors.len() == st0.errors.len() {
            add_errors(st1.errors, template_step_errors(path, k, ev_unresolved(ev, ds)))
        } else {
            st1.errors
        };
        assert(inherits_resolved == (st1.errors.len() == st0.errors.len()));
        assert(inherit_names@.len() == names.len());
        let inherited_steps = crate::ir::clone_pairs(&merged.steps);
        merged = crate::merge::merge_template_data(merged, own);
        // A template's body picks its steps the same way a job's does.
        match body {
            TemplateBody::Inherited => {
                merged.steps = inherited_steps;
                proof {
                    if local {
                        assert(ev.3 is None);
                        assert(ev_unresolved(ev, ds) =~= Seq::<Seq<char>>::empty());
                        assert(template_step_errors(path, k, ev_unresolved(ev, ds)) =~= Seq::empty());
                        assert(errors_view(self.errors@) == expected_errors);
                    }
                }
            },
            TemplateBody::Steps(items) => {
                let (steps, unresolved) = resolve_steps(&items, &inherited_steps);
                assert(ev.3 == Some(items_view(items@)));
                assert(strs_view(unresolved@) == ev_unresolved(ev, ds));
                // A template with no `inherit` is reported by validation, and one
                // whose parents failed to resolve has been reported already.
                if inherit_names.len() > 0 && inherits_resolved {
                    let mut u: usize = 0;
                    while u < unresolved.len()
                        invariant
                            0 <= u <= unresolved@.len(),
                            self.errors_ok(),
                            self.memo_ok(),
                            self.imports_allowed == old(self).imports_allowed,
                            self.root@ == old(self).root@,
                            self.sources == old(self).sources,
                            self.stack@ == stack0.push(top_g),
                            is_prefix(resolved0, self.resolved@),
                            self.resolved@ == resolved_mid,
                            file_path@ == files0[fi as int].path@,
                            fi < files0.len(),
                            files0 == old(self).files@,
                            self.files@.len() >= files0.len(),
                            forall|i: int| 0 <= i < files0.len() ==> #[trigger] self.files@[i] == files0[i],
                            !old(self).imports_allowed ==> files0[fi as int].path@ == old(self).root@,
                            local ==> self.local_mode(),
                            local ==> self.files@ == files0 && self.resolved@ == resolved_mid,
                            local ==> self.root@ == path,
                            k == key_view(*key),
                            path == file_path@,
                            local ==> errors_view(self.errors@) == add_errors(
                                st1.errors,
                                template_step_errors(path, k, strs_view(unresolved@).take(u as int)),
                            ),
                        decreases unresolved@.len() - u,
                    {
                        let ghost e0 = errors_view(self.errors@);
                        self.step_error(file_path.as_str(), key, unresolved[u].as_str());
                        proof {
                            if local {
                                let us = strs_view(unresolved@);
                                let a = template_step_errors(path, k, us.take(u + 1));
                                assert(a.drop_last() =~= template_step_errors(path, k, us.take(u as int)));
                                assert(a.last() == template_step_error(path, path, k, unresolved@[u as int]@));
                                assert(add_errors(st1.errors, a) == add_error(add_errors(st1.errors, a.drop_last()), a.last()));
                            }
                        }
                        u = u + 1;
                    }
                    proof {
                        if local {
                            assert(strs_view(unresolved@).take(unresolved@.len() as int) =~= strs_view(unresolved@));
                        }
                    }
                }
                assert(local ==> errors_view(self.errors@) == expected_errors);
                merged.steps = steps;
            },
        }
        assert(merged@ == template_data_from(entry, ds));
        assert(template_resolved(entry, merged@));
        assert(merged@ == ev_data(ev, ds));
        let ghost stack1 = self.stack@;
        self.stack.pop();
        assert(self.stack@ =~= stack0) by {
            assert(stack1.drop_last() =~= stack0);
        }
        let keep = merged.copy();
        let ghost resolved2 = self.resolved@;
        self.resolved.push((file_path, copy_key(key), keep));
        proof {
            if local {
                assert(ds.len() == names.len());
                assert(self.state_view().memo =~= st1.memo.push((k, merged@)));
                assert(self.stack_keys() =~= sk0);
                assert(self.local_mode()) by {
                    assert forall|i: int| 0 <= i < self.resolved@.len() implies #[trigger] self.resolved@[i].0@ == self.root@ by {
                        if i < resolved2.len() {
                            assert(self.resolved@[i] == resolved2[i]);
                        }
                    }
                }
                assert((merged@, self.state_view()) == resolve_spec(evs, imps, path, st0, sk0, k, fuel as nat));
            }
            assert(self.files@[fi as int] == files0[fi as int]);
            assert(self.files@[fi as int].raw@[ei as int] == entry);
            assert(loaded_template_result(self.files@, path, k, merged@));
            assert forall|i: int| 0 <= i < self.resolved@.len() implies loaded_template_result(
                self.files@,
                #[trigger] self.resolved@[i].0@,
                key_view(self.resolved@[i].1),
                self.resolved@[i].2@,
            ) by {
                if i < resolved2.len() {
                    assert(self.resolved@[i] == resolved2[i]);
                }
            }
            assert forall|i: int| 0 <= i < resolved0.len() implies #[trigger] self.resolved@[i] == resolved0[i] by {
                assert(resolved2[i] == resolved0[i]);
            }
            assert(!in_stack(stack0, path, k));
            assert forall|i: int| resolved0.len() <= i < self.resolved@.len() implies !in_stack(
                stack0,
                #[trigger] self.resolved@[i].0@,
                key_view(self.resolved@[i].1),
            ) by {
                if i < resolved2.len() {
                    assert(self.resolved@[i] == resolved2[i]);
                    assert(!in_stack(stack0.push(top_g), resolved2[i].0@, key_view(resolved2[i].1)));
                    if in_stack(stack0, resolved2[i].0@, key_view(resolved2[i].1)) {
                        let j = choose|j: int| 0 <= j < stack0.len() && #[trigger] stack0[j].0@ == resolved2[i].0@
                            && key_view(stack0[j].1) == key_view(resolved2[i].1);
                        assert(stack0.push(top_g)[j] == stack0[j]);
                    }
                }
            }
            assert forall|i: int| 0 <= i < self.resolved@.len() - 1 implies !memo_matches(#[trigger] self.resolved@[i], path, k) by {
                assert(self.resolved@[i] == resolved2[i]);
                if i >= resolved0.len() {
                    assert(!in_stack(stack0.push(top_g), resolved2[i].0@, key_view(resolved2[i].1)));
                    assert(stack0.push(top_g)[stack0.len() as int] == top_g);
                    if memo_matches(resolved2[i], path, k) {
                        assert(stack0.push(top_g)[stack0.len() as int].0@ == path);
                        assert(key_view(stack0.push(top_g)[stack0.len() as int].1) == k);
                        assert(in_stack(stack0.push(top_g), path, k));
                    }
                } else {
                    assert(resolved2[i] == resolved0[i]);
                    assert(!resolved_any(resolved0, path, k));
                    assert(!memo_matches(resolved0[i], path, k));
                }
            }
            assert(exists|e: int|
                0 <= e < raw.len() && key_view(#[trigger] raw[e].key) == k
                    && (forall|j: int| e < j < raw.len() ==> key_view(#[trigger] raw[j].key) != k)
                    && template_resolved(raw[e], merged@)) by {
                assert(key_view(raw[ei as int].key) == k);
            }
        }
        merged
    }

    /// What an `inherit` name written in `file` inside `context_stage`
    /// contributes to the thing inheriting it: nothing when it can't be
    /// followed, and otherwise what the template it refers to does.
    fn resolve(&mut self, file: &str, name: &str, context_stage: &Option<String>, fuel: usize) -> (r: TemplateData)
        requires
            old(self).errors_ok(),
            old(self).memo_ok(),
            !old(self).imports_allowed ==> file@ == old(self).root@,
        ensures
            final(self).errors_ok(),
            final(self).memo_ok(),
            final(self).imports_allowed == old(self).imports_allowed,
            final(self).root@ == old(self).root@,
            final(self).sources == old(self).sources,
            final(self).stack@ == old(self).stack@,
            is_prefix(old(self).resolved@, final(self).resolved@),
            fresh_after(old(self).stack@, old(self).resolved@.len() as int, final(self).resolved@),
            final(self).files@.len() >= old(self).files@.len(),
            forall|i: int| 0 <= i < old(self).files@.len() ==> #[trigger] final(self).files@[i] == old(self).files@[i],
            ({
                let files0 = old(self).files@;
                let fi = first_file(files0, file@, 0);
                &&& fi == files0.len() ==> r@ == crate::merge::empty_data()
                &&& fi < files0.len() && crate::text::spec_split_once(name@, '/') is None ==> old(self).resolves_key_to(
                    fi,
                    spec_local_key(files0[fi].raw@, name@, opt_view(*context_stage)),
                    fuel as int,
                    &*final(self),
                    r@,
                )
            }),
            r@ == crate::merge::empty_data() || exists|path: Seq<char>, key: (Option<Seq<char>>, Seq<char>)|
                #[trigger] loaded_template_result(final(self).files@, path, key, r@),
            first_file(old(self).files@, file@, 0) < old(self).files@.len() && old(self).imports_allowed
                && crate::text::spec_split_once(name@, '/') is Some ==> exists|mid: Self, t: Option<(usize, TemplateKey)>|
                #[trigger] old(self).follows_import(
                    &mid,
                    file@,
                    name@,
                    crate::text::spec_split_once(name@, '/').unwrap().0,
                    crate::text::spec_split_once(name@, '/').unwrap().1,
                    first_file(old(self).files@, file@, 0),
                    t,
                ) && match t {
                    None => r@ == crate::merge::empty_data() && final(self).errors@ == mid.errors@
                        && final(self).resolved@ == mid.resolved@ && final(self).files@ == mid.files@,
                    Some((ti, k)) => ti < mid.files@.len() && mid.resolves_key_to(ti as int, key_view(k), fuel as int, &*final(self), r@),
                },
            old(self).local_mode() && file@ == old(self).root@
                && (!old(self).imports_allowed || stays_local(name@, old(self).files@[0].imports@.map_values(|p: (String, String)| p.0@))) ==> {
                &&& final(self).local_mode()
                &&& final(self).files@ == old(self).files@
                &&& (r@, final(self).state_view()) == resolve_name_spec(
                    old(self).evs(),
                    old(self).import_names(),
                    old(self).root@,
                    old(self).state_view(),
                    old(self).stack_keys(),
                    name@,
                    opt_view(*context_stage),
                    fuel as nat,
                )
            },
        decreases fuel, 1nat,
    {
        let ghost files0 = self.files@;
        let ghost resolved0 = self.resolved@;
        proof {
            if crate::text::spec_split_once(name@, '/') is Some && files0.len() > 0 {
                lemma_has_import_names(files0[0].imports@, crate::text::spec_split_once(name@, '/').unwrap().0);
            }
            if self.local_mode() && file@ == self.root@ {
                assert(first_file(files0, file@, 0) == 0);
                lemma_has_entry_view(files0[0].raw@, (opt_view(*context_stage), name@));
            }
        }
        let target = self.target_of(file, name, context_stage);
        let ghost files1 = self.files@;
        let ghost mid0 = *self;
        proof {
            assert forall|i: int| 0 <= i < self.resolved@.len() implies loaded_template_result(
                self.files@,
                #[trigger] self.resolved@[i].0@,
                key_view(self.resolved@[i].1),
                self.resolved@[i].2@,
            ) by {
                assert(self.resolved@[i] == resolved0[i]);
                lemma_loaded_grow(files0, files1, resolved0[i].0@, key_view(resolved0[i].1), resolved0[i].2@);
            }
        }
        match target {
            None => {
                proof {
                    if first_file(old(self).files@, file@, 0) < old(self).files@.len() && old(self).imports_allowed
                        && crate::text::spec_split_once(name@, '/') is Some {
                        assert(old(self).follows_import(
                            &mid0,
                            file@,
                            name@,
                            crate::text::spec_split_once(name@, '/').unwrap().0,
                            crate::text::spec_split_once(name@, '/').unwrap().1,
                            first_file(old(self).files@, file@, 0),
                            target,
                        ));
                    }
                }
                TemplateData::empty()
            },
            Some((ti, key)) => {
                proof {
                    assert(!old(self).imports_allowed ==> files1[ti as int].path@ == old(self).root@);
                }
                let ghost mid = *self;
                let r = self.resolve_key(ti, &key, fuel);
                proof {
                    assert forall|i: int| 0 <= i < files0.len() implies #[trigger] self.files@[i] == files0[i] by {
                        assert(files1[i] == files0[i]);
                    }
                    if crate::text::spec_split_once(name@, '/') is None {
                        assert(mid.files@ == files0);
                        assert(mid.resolved@ == old(self).resolved@);
                        assert(mid.stack@ == old(self).stack@);
                    }
                    if r@ != crate::merge::empty_data() {
                        assert(loaded_template_result(self.files@, files1[ti as int].path@, key_view(key), r@));
                    }
                    if first_file(old(self).files@, file@, 0) < old(self).files@.len() && old(self).imports_allowed
                        && crate::text::spec_split_once(name@, '/') is Some {
                        assert(mid == mid0);
                        assert(old(self).follows_import(
                            &mid0,
                            file@,
                            name@,
                            crate::text::spec_split_once(name@, '/').unwrap().0,
                            crate::text::spec_split_once(name@, '/').unwrap().1,
                            first_file(old(self).files@, file@, 0),
                            target,
                        ));
                    }
                }
                r
            },
        }
    }

    /// Resolve every template in the root file, so that problems in a
    /// template no job happens to inherit are reported too. Each of them is
    /// resolved afterwards, unless there is no fuel or the resolver was in
    /// the middle of a resolution.
    fn resolve_root_templates(&mut self, fuel: usize)
        requires
            old(self).errors_ok(),
            old(self).memo_ok(),
            old(self).files@.len() > 0,
            old(self).files@[0].path@ == old(self).root@,
        ensures
            final(self).errors_ok(),
            final(self).imports_allowed == old(self).imports_allowed,
            (forall|e: int| 0 <= e < old(self).files@[0].raw@.len() ==> (#[trigger] old(self).files@[0].raw@[e]).inherit_names@.len() == 0)
                ==> final(self).errors@ == old(self).errors@,
            fuel > 0 && old(self).stack@.len() == 0 ==> forall|k: int|
                0 <= k < old(self).files@[0].raw@.len() ==> resolved_any(
                    final(self).resolved@,
                    old(self).root@,
                    key_view(#[trigger] old(self).files@[0].raw@[k].key),
                ),
            old(self).local_mode() && old(self).stack@.len() == 0 ==> {
                &&& final(self).local_mode()
                &&& final(self).files@ == old(self).files@
                &&& final(self).stack@.len() == 0
                &&& final(self).state_view() == roots_spec(
                    old(self).evs(),
                    old(self).import_names(),
                    old(self).root@,
                    old(self).state_view(),
                    old(self).evs().len() as int,
                    fuel as nat,
                )
            },
    {
        let n = self.files[0].raw.len();
        let ghost raw0 = self.files@[0].raw@;
        let mut keys: Vec<TemplateKey> = Vec::new();
        let mut k: usize = 0;
        while k < n
            invariant
                0 <= k <= n,
                self.files@.len() > 0,
                n == self.files@[0].raw@.len(),
                raw0 == self.files@[0].raw@,
                keys@.len() == k,
                forall|j: int| 0 <= j < k ==> key_view(#[trigger] keys@[j]) == key_view(raw0[j].key),
            decreases n - k,
        {
            keys.push(copy_key(&self.files[0].raw[k].key));
            k = k + 1;
        }
        let mut i: usize = 0;
        while i < keys.len()
            invariant
                0 <= i <= keys@.len(),
                keys@.len() == raw0.len(),
                forall|j: int| 0 <= j < keys@.len() ==> key_view(#[trigger] keys@[j]) == key_view(raw0[j].key),
                self.errors_ok(),
                self.memo_ok(),
                self.imports_allowed == old(self).imports_allowed,
                self.root@ == old(self).root@,
                self.stack@ == old(self).stack@,
                self.files@.len() > 0,
                self.files@[0] == old(self).files@[0],
                self.files@[0].path@ == self.root@,
                raw0 == old(self).files@[0].raw@,
                (forall|e: int| 0 <= e < raw0.len() ==> (#[trigger] raw0[e]).inherit_names@.len() == 0)
                    ==> self.errors@ == old(self).errors@,
                fuel > 0 && old(self).stack@.len() == 0 ==> forall|j: int|
                    0 <= j < i ==> resolved_any(self.resolved@, old(self).root@, key_view(#[trigger] raw0[j].key)),
                old(self).local_mode() && old(self).stack@.len() == 0 ==> {
                    &&& self.local_mode()
                    &&& self.files@ == old(self).files@
                    &&& self.stack@.len() == 0
                    &&& self.state_view() == roots_spec(
                        old(self).evs(),
                        old(self).import_names(),
                        old(self).root@,
                        old(self).state_view(),
                        i as int,
                        fuel as nat,
                    )
                },
            decreases keys@.len() - i,
        {
            let ghost f0 = self.files@[0];
            let ghost before = *self;
            proof {
                if old(self).local_mode() && old(self).stack@.len() == 0 {
                    assert(self.stack_keys() =~= Seq::<KeyView>::empty());
                    assert(old(self).evs()[i as int].0 == key_view(raw0[i as int].key));
                }
            }
            self.resolve_key(0, &keys[i], fuel);
            assert(self.files@[0] == f0);
            proof {
                if fuel > 0 && old(self).stack@.len() == 0 {
                    let path = old(self).root@;
                    assert forall|j: int| 0 <= j < i + 1 implies resolved_any(
                        self.resolved@,
                        path,
                        key_view(#[trigger] raw0[j].key),
                    ) by {
                        let kj = key_view(raw0[j].key);
                        if j < i {
                            let w = choose|w: int| 0 <= w < before.resolved@.len() && #[trigger] memo_matches(before.resolved@[w], path, kj);
                            assert(self.resolved@[w] == before.resolved@[w]);
                            assert(memo_matches(self.resolved@[w], path, kj));
                        } else {
                            assert(kj == key_view(keys@[i as int]));
                            assert(!before.stacked(path, kj));
                            if resolved_any(before.resolved@, path, kj) {
                                let w = choose|w: int| 0 <= w < before.resolved@.len() && #[trigger] memo_matches(before.resolved@[w], path, kj);
                                assert(self.resolved@[w] == before.resolved@[w]);
                                assert(memo_matches(self.resolved@[w], path, kj));
                            } else {
                                assert(key_view(raw0[j].key) == kj);
                                assert(has_entry(raw0, kj));
                                assert(memo_matches(self.resolved@[self.resolved@.len() - 1], path, kj));
                            }
                        }
                    }
                }
            }
            i = i + 1;
        }
    }
}



// ─── resolution within one file ──────────────────────────────────────────────

/// A template key as plain values: its stage, if any, and its name.
pub type KeyView = (Option<Seq<char>>, Seq<char>);

/// A template entry as plain values: its key, its own data, the names it
/// inherits and its body.
pub type EntryView = (KeyView, crate::merge::DataView, Seq<Seq<char>>, Option<Seq<StepItemView>>);

/// What resolving has produced so far: the templates resolved, in order,
/// with their data, and the errors reported.
pub struct ResolveState {
    pub memo: Seq<(KeyView, crate::merge::DataView)>,
    pub errors: Seq<(SiteView, Seq<char>)>,
}

pub open spec fn empty_state() -> ResolveState {
    ResolveState { memo: Seq::empty(), errors: Seq::empty() }
}

/// Some entry of `evs` has the key `k`.
pub open spec fn ev_has(evs: Seq<EntryView>, k: KeyView) -> bool {
    exists|i: int| 0 <= i < evs.len() && #[trigger] evs[i].0 == k
}

/// No entry of `evs` inherits a template of another file.
/// The `inherit` name `name` names a template of its own file, or one of an
/// import that isn't among `imps`, the import names of the file.
pub open spec fn stays_local(name: Seq<char>, imps: Seq<Seq<char>>) -> bool {
    match crate::text::spec_split_once(name, '/') {
        None => true,
        Some((imp, _)) => !imps.contains(imp),
    }
}

/// No template among `evs` inherits a template through one of the imports
/// `imps`.
pub open spec fn local_names(evs: Seq<EntryView>, imps: Seq<Seq<char>>) -> bool {
    forall|i: int, j: int| 0 <= i < evs.len() && 0 <= j < evs[i].2.len()
        ==> stays_local(#[trigger] evs[i].2[j], imps)
}

/// Index of the last of the first `n` entries with key `k`, or -1.
pub open spec fn ev_last(evs: Seq<EntryView>, k: KeyView, n: int) -> int
    decreases n,
{
    if n <= 0 || n > evs.len() {
        -1
    } else if evs[n - 1].0 == k {
        n - 1
    } else {
        ev_last(evs, k, n - 1)
    }
}

/// The key an unqualified `name` written in `ctx` refers to, as
/// `spec_local_key` has it.
pub open spec fn ev_local_key(evs: Seq<EntryView>, name: Seq<char>, ctx: Option<Seq<char>>) -> KeyView {
    match crate::text::spec_split_once(name, '.') {
        Some((stage, template)) => (Some(stage), template),
        None => if ctx is Some && ev_has(evs, (ctx, name)) {
            (ctx, name)
        } else {
            (None, name)
        },
    }
}

/// Index of the first resolved template with key `k` from `from` on, or the
/// number of them.
pub open spec fn memo_index(memo: Seq<(KeyView, crate::merge::DataView)>, k: KeyView, from: int) -> int
    decreases memo.len() - from,
{
    if from < 0 || from >= memo.len() {
        memo.len() as int
    } else if memo[from].0 == k {
        from
    } else {
        memo_index(memo, k, from + 1)
    }
}

/// What the entry `ev` contributes given `ds`, as `template_data_from`.
pub open spec fn ev_data(ev: EntryView, ds: Seq<crate::merge::DataView>) -> crate::merge::DataView {
    let inherited = merge_all(ds);
    let merged = crate::merge::spec_merge_data(inherited, ev.1);
    let steps = match ev.3 {
        None => inherited.steps,
        Some(items) => spec_resolve_steps(items, inherited.steps, explicit_names(items, items.len() as int), items.len() as int).0,
    };
    crate::merge::DataView { steps, ..merged }
}

/// The bare step references of the entry `ev` that nothing in `ds` defines.
pub open spec fn ev_unresolved(ev: EntryView, ds: Seq<crate::merge::DataView>) -> Seq<Seq<char>> {
    match ev.3 {
        None => Seq::empty(),
        Some(items) => spec_resolve_steps(items, merge_all(ds).steps, explicit_names(items, items.len() as int), items.len() as int).1,
    }
}

/// `es` with each of `new` added in order, as `add_error` does.
pub open spec fn add_errors(es: Seq<(SiteView, Seq<char>)>, new: Seq<(SiteView, Seq<char>)>) -> Seq<(SiteView, Seq<char>)>
    decreases new.len(),
{
    if new.len() == 0 {
        es
    } else {
        add_error(add_errors(es, new.drop_last()), new.last())
    }
}

/// The errors for the unresolved step references `steps` of the template
/// `key` of the root file.
pub open spec fn template_step_errors(root: Seq<char>, key: KeyView, steps: Seq<Seq<char>>) -> Seq<(SiteView, Seq<char>)> {
    steps.map_values(|u: Seq<char>| template_step_error(root, root, key, u))
}

/// Resolving the template `key` of the file whose entries are `evs`, from
/// state `st` with `stack` being resolved: the data remembered first for it;
/// otherwise nothing for one being resolved (a cycle) or out of `fuel` or
/// missing; otherwise what its last entry contributes, given what each name
/// it inherits resolves to in turn, with the step references none of them
/// defines reported when they all resolved without error.
pub open spec fn resolve_spec(
    evs: Seq<EntryView>,
    imps: Option<Seq<Seq<char>>>,
    root: Seq<char>,
    st: ResolveState,
    stack: Seq<KeyView>,
    key: KeyView,
    fuel: nat,
) -> (crate::merge::DataView, ResolveState)
    decreases fuel, 0nat, 0int,
{
    let j = memo_index(st.memo, key, 0);
    if 0 <= j < st.memo.len() {
        (st.memo[j].1, st)
    } else if stack.contains(key) || fuel == 0 {
        (crate::merge::empty_data(), st)
    } else {
        let e = ev_last(evs, key, evs.len() as int);
        if e < 0 {
            (crate::merge::empty_data(), st)
        } else {
            let ev = evs[e];
            let (ds, st1) = resolve_names_spec(evs, imps, root, st, stack.push(key), ev.2, key.0, (fuel - 1) as nat, ev.2.len() as int);
            let d = ev_data(ev, ds);
            let errors = if ev.2.len() > 0 && st1.errors.len() == st.errors.len() {
                add_errors(st1.errors, template_step_errors(root, key, ev_unresolved(ev, ds)))
            } else {
                st1.errors
            };
            (d, ResolveState { memo: st1.memo.push((key, d)), errors })
        }
    }
}

/// What the `inherit` name `name` written in `ctx` resolves to: nothing for
/// a cross-file name, reported when imports are followed (`imps` holds the
/// file's import names) and the file has no import of that name; and
/// otherwise the template of the file it refers to.
pub open spec fn resolve_name_spec(
    evs: Seq<EntryView>,
    imps: Option<Seq<Seq<char>>>,
    root: Seq<char>,
    st: ResolveState,
    stack: Seq<KeyView>,
    name: Seq<char>,
    ctx: Option<Seq<char>>,
    fuel: nat,
) -> (crate::merge::DataView, ResolveState)
    decreases fuel, 1nat, 0int,
{
    match crate::text::spec_split_once(name, '/') {
        Some((imp, _)) => match imps {
            Some(ns) => if ns.contains(imp) {
                (crate::merge::empty_data(), st)
            } else {
                (
                    crate::merge::empty_data(),
                    ResolveState { memo: st.memo, errors: add_error(st.errors, inherit_error(root, root, name, no_import_message(imp))) },
                )
            },
            None => (crate::merge::empty_data(), st),
        },
        None => resolve_spec(evs, imps, root, st, stack, ev_local_key(evs, name, ctx), fuel),
    }
}

/// Resolving the first `k` of `names` in turn.
pub open spec fn resolve_names_spec(
    evs: Seq<EntryView>,
    imps: Option<Seq<Seq<char>>>,
    root: Seq<char>,
    st: ResolveState,
    stack: Seq<KeyView>,
    names: Seq<Seq<char>>,
    ctx: Option<Seq<char>>,
    fuel: nat,
    k: int,
) -> (Seq<crate::merge::DataView>, ResolveState)
    decreases fuel, 2nat, k,
{
    if k <= 0 || k > names.len() {
        (Seq::empty(), st)
    } else {
        let (ds, st1) = resolve_names_spec(evs, imps, root, st, stack, names, ctx, fuel, k - 1);
        let (d, st2) = resolve_name_spec(evs, imps, root, st1, stack, names[k - 1], ctx, fuel);
        (ds.push(d), st2)
    }
}

proof fn lemma_memo_index(memo: Seq<(KeyView, crate::merge::DataView)>, k: KeyView, i: int, from: int)
    requires
        0 <= from <= i <= memo.len(),
        forall|j: int| 0 <= j < i ==> #[trigger] memo[j].0 != k,
        i < memo.len() ==> memo[i].0 == k,
    ensures
        memo_index(memo, k, from) == i,
    decreases i - from,
{
    if from < i {
        lemma_memo_index(memo, k, i, from + 1);
    }
}

proof fn lemma_ev_last(evs: Seq<EntryView>, k: KeyView, n: int, i: int)
    requires
        0 <= n <= evs.len(),
        -1 <= i < n,
        i >= 0 ==> evs[i].0 == k,
        forall|j: int| i < j < n ==> #[trigger] evs[j].0 != k,
    ensures
        ev_last(evs, k, n) == i,
    decreases n,
{
    if n > 0 && n - 1 != i {
        lemma_ev_last(evs, k, n - 1, i);
    }
}

proof fn lemma_has_entry_view(raw: Seq<TemplateEntry>, k: KeyView)
    ensures
        has_entry(raw, k) == ev_has(entries_view(raw), k),
{
    if has_entry(raw, k) {
        let i = choose|i: int| 0 <= i < raw.len() && #[trigger] key_view(raw[i].key) == k;
        assert(entries_view(raw)[i].0 == k);
    }
    if ev_has(entries_view(raw), k) {
        let i = choose|i: int| 0 <= i < entries_view(raw).len() && #[trigger] entries_view(raw)[i].0 == k;
        assert(key_view(raw[i].key) == k);
    }
}

// ─── lowering ────────────────────────────────────────────────────────────────

/// The strategy a `strategy` value names; anything else means none.
pub open spec fn spec_strategy_from_str(s: Seq<char>) -> WorkflowStrategy {
    if s == "default_branch"@ {
        WorkflowStrategy::DefaultBranch
    } else if s == "reviews"@ {
        WorkflowStrategy::Reviews
    } else if s == "default_branch_and_reviews"@ {
        WorkflowStrategy::DefaultBranchAndReviews
    } else {
        WorkflowStrategy::NoRules
    }
}

/// The strategy a `strategy` value names.
pub fn strategy_from_str(s: &str) -> (r: WorkflowStrategy)
    ensures
        r == spec_strategy_from_str(s@),
{
    if crate::text::str_eq(s, "default_branch") {
        WorkflowStrategy::DefaultBranch
    } else if crate::text::str_eq(s, "reviews") {
        WorkflowStrategy::Reviews
    } else if crate::text::str_eq(s, "default_branch_and_reviews") {
        WorkflowStrategy::DefaultBranchAndReviews
    } else {
        WorkflowStrategy::NoRules
    }
}

/// The strategy of the first workflow of a file.
pub open spec fn spec_strategy(root: Node) -> WorkflowStrategy {
    let defs = spec_child_nodes(root.children@, SyntaxKind::WorkflowDef);
    if defs.len() > 0 {
        match crate::ast::spec_attr_scalar(defs[0], crate::ast::seq_strategy()) {
            Some(s) => spec_strategy_from_str(s),
            None => WorkflowStrategy::NoRules,
        }
    } else {
        WorkflowStrategy::NoRules
    }
}

fn strategy_from_root(root: &Root) -> (r: WorkflowStrategy)
    ensures
        r == spec_strategy(root.node()),
{
    let defs = root.workflow_defs();
    if defs.len() > 0 {
        match defs[0].strategy() {
            Some(s) => strategy_from_str(s.as_str()),
            None => WorkflowStrategy::NoRules,
        }
    } else {
        WorkflowStrategy::NoRules
    }
}

/// The stages among `ss` that have a body; they are the ones lowered.
pub open spec fn stages_with_body(ss: Seq<Node>) -> Seq<Node>
    decreases ss.len(),
{
    if ss.len() == 0 {
        Seq::empty()
    } else {
        let rest = stages_with_body(ss.drop_last());
        if spec_child_node(ss.last(), SyntaxKind::StageBody) is Some {
            rest.push(ss.last())
        } else {
            rest
        }
    }
}

pub open spec fn name_or_empty(n: Node) -> Seq<char> {
    match spec_name(n) {
        Some(x) => x,
        None => Seq::empty(),
    }
}

/// The jobs of a stage's body.
pub open spec fn stage_jobs(stage: Node) -> Seq<Node> {
    spec_child_nodes(spec_child_node(stage, SyntaxKind::StageBody)->0.children@, SyntaxKind::Job)
}

/// `j` is the job `job` of stage `stage_name` lowered with `td`, the data of
/// the templates it inherits merged in order: its own image and
/// dependencies win over the templates', its artifacts, exports and
/// variables are the templates', and its script is its body resolved
/// against the templates' steps.
pub open spec fn job_from(job: Node, stage_name: Seq<char>, td: crate::merge::DataView, j: Job) -> bool {
    let a = spec_node_attrs(job);
    &&& j.name@ == name_or_empty(job)
    &&& j.stage@ == stage_name
    &&& opt_view(j.image) == (match a.image {
        Some(i) => Some(i),
        None => td.image,
    })
    &&& refs_view(j.needs@) == (if a.needs.len() == 0 { td.needs } else { a.needs })
    &&& strs_view(j.artifacts@) == td.artifacts + ra_artifacts(crate::ast::spec_return_items(job))
    &&& strs_view(j.env@) == (if ra_env(crate::ast::spec_return_items(job)).len() == 0 {
        td.env
    } else {
        ra_env(crate::ast::spec_return_items(job))
    })
    &&& pairs_view(j.variables@) == td.variables
    &&& strs_view(j.script@) == spec_job_script(job, td.steps).0
}

/// The data of `ds` laid over each other in order, starting from nothing.
pub open spec fn merge_all(ds: Seq<crate::merge::DataView>) -> crate::merge::DataView
    decreases ds.len(),
{
    if ds.len() == 0 {
        crate::merge::empty_data()
    } else {
        crate::merge::spec_merge_data(merge_all(ds.drop_last()), ds.last())
    }
}

/// `j` is `job` lowered, with `ds` the data that each of the templates it
/// inherits, in order, contributes.
pub open spec fn job_lowered_from(job: Node, stage_name: Seq<char>, ds: Seq<crate::merge::DataView>, j: Job) -> bool {
    &&& ds.len() == spec_node_attrs(job).inherit_names.len()
    &&& job_from(job, stage_name, merge_all(ds), j)
}

pub open spec fn job_lowered(job: Node, stage_name: Seq<char>, j: Job) -> bool {
    exists|ds: Seq<crate::merge::DataView>| #[trigger] job_lowered_from(job, stage_name, ds, j)
}

/// `s` is `stage` lowered: its name, and each of its jobs lowered in order.
pub open spec fn stage_lowered(stage: Node, s: Stage) -> bool {
    &&& s.name@ == name_or_empty(stage)
    &&& s.jobs@.len() == stage_jobs(stage).len()
    &&& forall|m: int| 0 <= m < s.jobs@.len() ==> job_lowered(stage_jobs(stage)[m], s.name@, #[trigger] s.jobs@[m])
}

/// `w` is the file `root` lowered: its strategy, and each stage with a body
/// lowered in order.
pub open spec fn workflow_lowered(root: Node, w: Workflow) -> bool {
    let ss = stages_with_body(spec_root_items(root, SyntaxKind::Stage));
    &&& w.strategy == spec_strategy(root)
    &&& w.stages@.len() == ss.len()
    &&& forall|k: int| 0 <= k < ss.len() ==> stage_lowered(ss[k], #[trigger] w.stages@[k])
}

/// No template of the file `root`, and no job of one of its stages with a
/// body, names a template to inherit.
pub open spec fn inherits_nothing(root: Node) -> bool {
    let stages = spec_root_items(root, SyntaxKind::Stage);
    let entries = spec_entries(None, spec_root_items(root, SyntaxKind::TemplateDef)) + spec_stage_entries(stages);
    &&& forall|i: int| 0 <= i < entries.len() ==> (#[trigger] entries[i]).2.len() == 0
    &&& forall|s: int, j: int|
        0 <= s < stages.len() && spec_child_node(stages[s], SyntaxKind::StageBody) is Some && 0 <= j < stage_jobs(stages[s]).len()
            ==> spec_node_attrs(#[trigger] stage_jobs(stages[s])[j]).inherit_names.len() == 0
}

/// The error for a bare `step` reference of the job `job` of stage `stage`
/// that none of its templates defines.
pub open spec fn job_step_error(stage: Seq<char>, job: Seq<char>, step: Seq<char>) -> (SiteView, Seq<char>) {
    (
        SiteView::StepRef(stage, job, step),
        "job `"@ + stage + "."@ + job + "` uses step `"@ + step + "`, but no template it inherits defines it"@,
    )
}

pub open spec fn job_step_errors(stage: Seq<char>, job: Seq<char>, steps: Seq<Seq<char>>) -> Seq<(SiteView, Seq<char>)> {
    steps.map_values(|u: Seq<char>| job_step_error(stage, job, u))
}

/// Lowering the job `job` of the stage `stage_name` from state `st`: what
/// each name it inherits resolves to, in turn, and the state after, with its
/// unresolved step references reported when those names resolved without
/// error.
pub open spec fn job_spec(
    evs: Seq<EntryView>,
    imps: Option<Seq<Seq<char>>>,
    root: Seq<char>,
    st: ResolveState,
    stage_name: Seq<char>,
    job: Node,
    fuel: nat,
) -> (Seq<crate::merge::DataView>, ResolveState) {
    let names = spec_node_attrs(job).inherit_names;
    let (ds, st1) = resolve_names_spec(evs, imps, root, st, Seq::empty(), names, Some(stage_name), fuel, names.len() as int);
    let unresolved = spec_job_script(job, merge_all(ds).steps).1;
    let errors = if names.len() > 0 && st1.errors.len() == st.errors.len() {
        st1.errors + job_step_errors(stage_name, name_or_empty(job), unresolved)
    } else {
        st1.errors
    };
    (ds, ResolveState { memo: st1.memo, errors })
}

/// Lowering the jobs `jobs` of the stage `stage_name` in turn.
pub open spec fn jobs_spec(
    evs: Seq<EntryView>,
    imps: Option<Seq<Seq<char>>>,
    root: Seq<char>,
    st: ResolveState,
    stage_name: Seq<char>,
    jobs: Seq<Node>,
    fuel: nat,
) -> (Seq<Seq<crate::merge::DataView>>, ResolveState)
    decreases jobs.len(),
{
    if jobs.len() == 0 {
        (Seq::empty(), st)
    } else {
        let (dss, st1) = jobs_spec(evs, imps, root, st, stage_name, jobs.drop_last(), fuel);
        let (ds, st2) = job_spec(evs, imps, root, st1, stage_name, jobs.last(), fuel);
        (dss.push(ds), st2)
    }
}

/// Lowering the jobs of each of `stages` in turn.
pub open spec fn stages_spec(
    evs: Seq<EntryView>,
    imps: Option<Seq<Seq<char>>>,
    root: Seq<char>,
    st: ResolveState,
    stages: Seq<Node>,
    fuel: nat,
) -> (Seq<Seq<Seq<crate::merge::DataView>>>, ResolveState)
    decreases stages.len(),
{
    if stages.len() == 0 {
        (Seq::empty(), st)
    } else {
        let (a, st1) = stages_spec(evs, imps, root, st, stages.drop_last(), fuel);
        let (b, st2) = jobs_spec(evs, imps, root, st1, name_or_empty(stages.last()), stage_jobs(stages.last()), fuel);
        (a.push(b), st2)
    }
}

/// Resolving each of the first `n` templates of the file in turn.
pub open spec fn roots_spec(evs: Seq<EntryView>, imps: Option<Seq<Seq<char>>>, root: Seq<char>, st: ResolveState, n: int, fuel: nat) -> ResolveState
    decreases n,
{
    if n <= 0 || n > evs.len() {
        st
    } else {
        resolve_spec(evs, imps, root, roots_spec(evs, imps, root, st, n - 1, fuel), Seq::empty(), evs[n - 1].0, fuel).1
    }
}

/// The templates of the file `root`: top-level ones first, then those of
/// each stage.
pub open spec fn root_entries(root: Node) -> Seq<EntryView> {
    spec_entries(None, spec_root_items(root, SyntaxKind::TemplateDef))
        + spec_stage_entries(spec_root_items(root, SyntaxKind::Stage))
}

/// The bound on the depth of template resolution in a file on its own: one
/// more than the number of its templates.
pub open spec fn local_fuel(root: Node) -> nat {
    let n = root_entries(root).len() + 1;
    if n > usize::MAX { usize::MAX as nat } else { n as nat }
}

/// `x`, or the largest `usize` when it is larger.
pub open spec fn saturated(x: int) -> int {
    if x > usize::MAX { usize::MAX as int } else { x }
}

/// `base` with the length of the text of each of the first `k` of `sources`
/// added in turn, saturating.
pub open spec fn sources_fuel(base: int, sources: Seq<SourceFile>, k: int) -> int
    decreases k,
{
    if k <= 0 || k > sources.len() {
        base
    } else {
        let f = sources_fuel(base, sources, k - 1);
        match sources[k - 1].text {
            Some(t) => saturated(f + t@.len()),
            None => f,
        }
    }
}

/// The bound on the depth of template resolution when lowering `root` with
/// `sources`: one more than the number of its templates, plus the length of
/// every source, as a file of `n` characters defines fewer than `n`
/// templates.
pub open spec fn lowering_fuel(root: Node, sources: Seq<SourceFile>) -> nat {
    sources_fuel(local_fuel(root) as int, sources, sources.len() as int) as nat
}

/// No template of the file `root` at `path`, and no job of one of its
/// stages with a body, names a template through one of the file's imports:
/// each name is of a template of the file, or through an import the file
/// lacks.
pub open spec fn no_cross_file_names(root: Node, path: Seq<char>) -> bool {
    let stages = spec_root_items(root, SyntaxKind::Stage);
    let imps = root_import_names(root, path);
    &&& local_names(root_entries(root), imps)
    &&& forall|s: int, j: int, k: int|
        0 <= s < stages.len() && spec_child_node(stages[s], SyntaxKind::StageBody) is Some && 0 <= j < stage_jobs(stages[s]).len()
            && 0 <= k < spec_node_attrs(stage_jobs(stages[s])[j]).inherit_names.len()
            ==> stays_local(#[trigger] spec_node_attrs(stage_jobs(stages[s])[j]).inherit_names[k], imps)
}

/// Lowering the file `root`, at `path`, on its own: the data each inherited
/// template contributes to each job, by stage and job, and the final state,
/// after every template of the file has been resolved too.
pub open spec fn local_resolution(root: Node, path: Seq<char>) -> (Seq<Seq<Seq<crate::merge::DataView>>>, ResolveState) {
    resolution(root, path, local_fuel(root), None)
}

/// As `local_resolution`, with resolution `fuel` deep.
pub open spec fn resolution(root: Node, path: Seq<char>, fuel: nat, imps: Option<Seq<Seq<char>>>) -> (Seq<Seq<Seq<crate::merge::DataView>>>, ResolveState) {
    let evs = root_entries(root);
    let (dss, st) = stages_spec(evs, imps, path, empty_state(), stages_with_body(spec_root_items(root, SyntaxKind::Stage)), fuel);
    (dss, roots_spec(evs, imps, path, st, evs.len() as int, fuel))
}

/// The import names of the file `root` at `path` when imports are followed.
pub open spec fn imports_seen(root: Node, path: Seq<char>, allowed: bool) -> Option<Seq<Seq<char>>> {
    if allowed { Some(root_import_names(root, path)) } else { None }
}

/// The names of the imports of the file `root` at `path`.
pub open spec fn root_import_names(root: Node, path: Seq<char>) -> Seq<Seq<char>> {
    spec_file_imports(path, spec_root_items(root, SyntaxKind::UseDecl)).map_values(|p: (Seq<char>, Seq<char>)| p.0)
}

/// Lowering the file `root` at `path`, following its imports, with
/// resolution `fuel` deep.
pub open spec fn import_resolution(root: Node, path: Seq<char>, fuel: nat) -> (Seq<Seq<Seq<crate::merge::DataView>>>, ResolveState) {
    resolution(root, path, fuel, Some(root_import_names(root, path)))
}

/// `s` is `stage` lowered with `dss[m]` what the templates its m-th job
/// inherits contribute.
pub open spec fn stage_lowered_with(stage: Node, s: Stage, dss: Seq<Seq<crate::merge::DataView>>) -> bool {
    &&& s.name@ == name_or_empty(stage)
    &&& s.jobs@.len() == stage_jobs(stage).len()
    &&& dss.len() == s.jobs@.len()
    &&& forall|m: int| 0 <= m < s.jobs@.len() ==> job_lowered_from(stage_jobs(stage)[m], s.name@, dss[m], #[trigger] s.jobs@[m])
}

/// `w` is the file `root` lowered with `dss[k][m]` what the templates the
/// m-th job of the k-th stage with a body inherits contribute.
pub open spec fn workflow_lowered_with(root: Node, w: Workflow, dss: Seq<Seq<Seq<crate::merge::DataView>>>) -> bool {
    let ss = stages_with_body(spec_root_items(root, SyntaxKind::Stage));
    &&& w.strategy == spec_strategy(root)
    &&& w.stages@.len() == ss.len()
    &&& dss.len() == ss.len()
    &&& forall|k: int| 0 <= k < ss.len() ==> stage_lowered_with(ss[k], #[trigger] w.stages@[k], dss[k])
}

fn saturating_add(a: usize, b: usize) -> (r: usize)
    ensures
        r >= a,
        r == (if a + b > usize::MAX { usize::MAX as int } else { a + b }),
{
    if a > usize::MAX - b {
        usize::MAX
    } else {
        a + b
    }
}

fn lower_inner(root: &Root, path: &str, imports_allowed: bool, sources: &Vec<SourceFile>) -> (r: (Workflow, Vec<LowerError>))
    ensures
        workflow_lowered(root.node(), r.0),
        !imports_allowed ==> forall|i: int| 0 <= i < r.1@.len() ==> is_step_site(#[trigger] r.1@[i].site),
        inherits_nothing(root.node()) ==> r.1@.len() == 0,
        !imports_allowed || no_cross_file_names(root.node(), path@) ==> {
            let res = resolution(root.node(), path@, lowering_fuel(root.node(), sources@), imports_seen(root.node(), path@, imports_allowed));
            &&& workflow_lowered_with(root.node(), r.0, res.0)
            &&& errors_view(r.1@) == res.1.errors
        },
{
    let ghost local_case = !imports_allowed || no_cross_file_names(root.node(), path@);
    let ghost evs = root_entries(root.node());
    let ghost imps = imports_seen(root.node(), path@, imports_allowed);
    let strategy = strategy_from_root(root);
    let root_templates = FileTemplates::from_root(root, path);
    assert(entries_view(root_templates.raw@) == evs);
    assert(entries_view(root_templates.raw@).len() == root_templates.raw@.len());
    // Every template being resolved is a different one, and a file of `n`
    // characters defines fewer than `n` templates.
    let mut fuel: usize = saturating_add(root_templates.raw.len(), 1);
    assert(fuel == local_fuel(root.node()));
    let mut f: usize = 0;
    while f < sources.len()
        invariant
            0 <= f <= sources@.len(),
            fuel == sources_fuel(local_fuel(root.node()) as int, sources@, f as int),
        decreases sources@.len() - f,
    {
        match &sources[f].text {
            Some(t) => {
                fuel = saturating_add(fuel, t.unicode_len());
            },
            None => {},
        }
        f = f + 1;
    }
    assert(fuel == lowering_fuel(root.node(), sources@));
    let ghost root_raw = root_templates.raw@;
    proof {
        if inherits_nothing(root.node()) {
            assert forall|e: int| 0 <= e < root_raw.len() implies (#[trigger] root_raw[e]).inherit_names@.len() == 0 by {
                assert(entries_view(root_raw)[e] == entry_view(root_raw[e]));
                assert(strs_view(root_raw[e].inherit_names@).len() == root_raw[e].inherit_names@.len());
            }
        }
    }
    let mut files: Vec<FileTemplates> = Vec::new();
    files.push(root_templates);
    let mut resolver = TemplateResolver {
        root: path.to_owned(),
        files,
        sources,
        resolved: Vec::new(),
        stack: Vec::new(),
        imports_allowed,
        errors: Vec::new(),
    };
    let ghost all_stages = spec_root_items(root.node(), SyntaxKind::Stage);
    let ghost ss = stages_with_body(all_stages);
    let ghost files_init = resolver.files@;
    let ghost path_v = path@;
    proof {
        assert(resolver.files@[0].imports@.map_values(|p: (String, String)| p.0@) =~= root_import_names(root.node(), path@));
        assert(resolver.import_names() == imps);
        if local_case && imports_allowed {
            assert(local_names(resolver.evs(), root_import_names(root.node(), path@)));
        }
        assert(resolver.state_view().memo =~= empty_state().memo);
        assert(resolver.state_view().errors =~= empty_state().errors);
        assert(resolver.state_view() == empty_state());
        assert(resolver.evs() == evs);
        assert(all_stages.take(0) =~= Seq::<Node>::empty());
    }
    let ghost mut dss: Seq<Seq<Seq<crate::merge::DataView>>> = Seq::empty();
    let root_stages = root.stages();
    let mut stages: Vec<Stage> = Vec::new();
    let mut si: usize = 0;
    while si < root_stages.len()
        invariant
            0 <= si <= root_stages@.len(),
            root_stages@.len() == all_stages.len(),
            forall|j: int| 0 <= j < root_stages@.len() ==> #[trigger] root_stages@[j].node() == all_stages[j],
            stages@.len() == stages_with_body(all_stages.take(si as int)).len(),
            forall|k: int| 0 <= k < stages@.len() ==> stage_lowered(stages_with_body(all_stages.take(si as int))[k], #[trigger] stages@[k]),
            resolver.errors_ok(),
            resolver.memo_ok(),
            resolver.imports_allowed == imports_allowed,
            resolver.root@ == path@,
            resolver.files@.len() > 0,
            resolver.files@[0].path@ == path@,
            resolver.files@[0].raw@ == root_raw,
            resolver.stack@.len() == 0,
            inherits_nothing(root.node()) ==> resolver.errors@.len() == 0,
            all_stages == spec_root_items(root.node(), SyntaxKind::Stage),
            dss.len() == stages@.len(),
            forall|k: int| 0 <= k < stages@.len() ==> stage_lowered_with(stages_with_body(all_stages.take(si as int))[k], #[trigger] stages@[k], dss[k]),
            local_case == (!imports_allowed || no_cross_file_names(root.node(), path@)),
                imps == imports_seen(root.node(), path@, imports_allowed),
                local_case ==> resolver.import_names() == imps,
            evs == root_entries(root.node()),
            path_v == path@,
            fuel == lowering_fuel(root.node(), sources@),
            local_case ==> resolver.local_mode() && resolver.files@ == files_init && resolver.evs() == evs,
            local_case ==> (dss, resolver.state_view()) == stages_spec(evs, imps, path_v, empty_state(), stages_with_body(all_stages.take(si as int)), fuel as nat),
        decreases root_stages@.len() - si,
    {
        let ghost prefix = all_stages.take(si as int);
        assert(all_stages.take(si + 1).drop_last() =~= prefix);
        assert(all_stages.take(si + 1).last() == all_stages[si as int]);
        let stage = &root_stages[si];
        assert(stage.node() == all_stages[si as int]);
        let stage_name = match stage.name() {
            Some(n) => n,
            None => String::new(),
        };
        let body = match stage.body() {
            Some(b) => b,
            None => {
                proof {
                    assert(stages_with_body(all_stages.take(si + 1)) == stages_with_body(prefix));
                }
                si = si + 1;
                continue;
            },
        };
        let ast_jobs = body.jobs();
        let ghost sj = stage_jobs(stage.node());
        assert(sj == spec_child_nodes(body.node().children@, SyntaxKind::Job));
        let context: Option<String> = Some(stage_name.clone());
        let ghost st_stage = resolver.state_view();
        let ghost mut jdss: Seq<Seq<crate::merge::DataView>> = Seq::empty();
        assert(stage_name@ == name_or_empty(all_stages[si as int]));
        assert(sj.take(0) =~= Seq::<Node>::empty());
        let mut jobs: Vec<Job> = Vec::new();
        let mut ji: usize = 0;
        while ji < ast_jobs.len()
            invariant
                0 <= ji <= ast_jobs@.len(),
                ast_jobs@.len() == sj.len(),
                forall|j: int| 0 <= j < ast_jobs@.len() ==> #[trigger] ast_jobs@[j].node() == sj[j],
                jobs@.len() == ji,
                forall|m: int| 0 <= m < ji ==> job_lowered(sj[m], stage_name@, #[trigger] jobs@[m]),
                resolver.errors_ok(),
                resolver.memo_ok(),
                resolver.imports_allowed == imports_allowed,
                resolver.root@ == path@,
                resolver.files@.len() > 0,
                resolver.files@[0].path@ == path@,
                resolver.files@[0].raw@ == root_raw,
                resolver.stack@.len() == 0,
                inherits_nothing(root.node()) ==> resolver.errors@.len() == 0,
                spec_child_node(all_stages[si as int], SyntaxKind::StageBody) is Some,
                sj == stage_jobs(all_stages[si as int]),
                all_stages == spec_root_items(root.node(), SyntaxKind::Stage),
                si < all_stages.len(),
                jdss.len() == ji,
                forall|m: int| 0 <= m < ji ==> job_lowered_from(sj[m], stage_name@, jdss[m], #[trigger] jobs@[m]),
                opt_view(context) == Some(stage_name@),
                local_case == (!imports_allowed || no_cross_file_names(root.node(), path@)),
                imps == imports_seen(root.node(), path@, imports_allowed),
                local_case ==> resolver.import_names() == imps,
                evs == root_entries(root.node()),
                path_v == path@,
                fuel == lowering_fuel(root.node(), sources@),
                local_case ==> resolver.local_mode() && resolver.files@ == files_init && resolver.evs() == evs,
                local_case ==> (jdss, resolver.state_view()) == jobs_spec(evs, imps, path_v, st_stage, stage_name@, sj.take(ji as int), fuel as nat),
            decreases ast_jobs@.len() - ji,
        {
            let job = &ast_jobs[ji];
            assert(job.node() == sj[ji as int]);
            let job_name = match job.name() {
                Some(n) => n,
                None => String::new(),
            };
            assert(job_name@ == name_or_empty(job.node()));
            let attrs = parse_attrs(job.syntax());
            let ghost names = spec_node_attrs(job.node()).inherit_names;
            assert(job.node() == stage_jobs(all_stages[si as int])[ji as int]);
            let ghost st_job = resolver.state_view();
            assert(names == strs_view(attrs.inherit_names@));
            assert(strs_view(attrs.inherit_names@).len() == attrs.inherit_names@.len());
            assert(inherits_nothing(root.node()) ==> attrs.inherit_names@.len() == 0) by {
                if inherits_nothing(root.node()) {
                    assert(all_stages == spec_root_items(root.node(), SyntaxKind::Stage));
                    assert(0 <= ji < stage_jobs(all_stages[si as int]).len());
                    assert(spec_child_node(all_stages[si as int], SyntaxKind::StageBody) is Some);
                    assert(stage_jobs(all_stages[si as int])[ji as int] == job.node());
                    assert(spec_node_attrs(stage_jobs(all_stages[si as int])[ji as int]).inherit_names.len() == 0);
                }
            }
            let mut template_data = TemplateData::empty();
            let ghost mut ds: Seq<crate::merge::DataView> = Seq::empty();
            let errors_before = resolver.errors.len();
            let mut p: usize = 0;
            while p < attrs.inherit_names.len()
                invariant
                    ds.len() == p,
                    template_data@ == merge_all(ds),
                    0 <= p <= attrs.inherit_names@.len(),
                    resolver.errors_ok(),
                    resolver.memo_ok(),
                    resolver.imports_allowed == imports_allowed,
                    resolver.root@ == path@,
                    resolver.files@.len() > 0,
                    resolver.files@[0].path@ == path@,
                    resolver.files@[0].raw@ == root_raw,
                    resolver.stack@.len() == 0,
                    inherits_nothing(root.node()) ==> resolver.errors@.len() == 0,
                    inherits_nothing(root.node()) ==> attrs.inherit_names@.len() == 0,
                    names == strs_view(attrs.inherit_names@),
                    opt_view(context) == Some(stage_name@),
                    local_case == (!imports_allowed || no_cross_file_names(root.node(), path@)),
                imps == imports_seen(root.node(), path@, imports_allowed),
                local_case ==> resolver.import_names() == imps,
                    evs == root_entries(root.node()),
                    path_v == path@,
                    fuel == lowering_fuel(root.node(), sources@),
                    local_case ==> resolver.local_mode() && resolver.files@ == files_init && resolver.evs() == evs,
                    local_case ==> (ds, resolver.state_view()) == resolve_names_spec(evs, imps, path_v, st_job, Seq::empty(), names, Some(stage_name@), fuel as nat, p as int),
                    all_stages == spec_root_items(root.node(), SyntaxKind::Stage),
                    si < all_stages.len(),
                    spec_child_node(all_stages[si as int], SyntaxKind::StageBody) is Some,
                    ji < stage_jobs(all_stages[si as int]).len(),
                    names == spec_node_attrs(stage_jobs(all_stages[si as int])[ji as int]).inherit_names,
                decreases attrs.inherit_names@.len() - p,
            {
                proof {
                    if local_case && imports_allowed {
                        assert(no_cross_file_names(root.node(), path@));
                        assert(names[p as int] == attrs.inherit_names@[p as int]@);
                        assert(stays_local(
                            spec_node_attrs(stage_jobs(all_stages[si as int])[ji as int]).inherit_names[p as int],
                            root_import_names(root.node(), path@),
                        ));
                    }
                }
                let ghost st_before = resolver.state_view();
                let ghost ds0 = ds;
                proof {
                    if local_case {
                        assert(resolver.stack_keys() =~= Seq::<KeyView>::empty());
                    }
                }
                let data = resolver.resolve(path, attrs.inherit_names[p].as_str(), &context, fuel);
                proof {
                    if local_case {
                        assert(names[p as int] == attrs.inherit_names@[p as int]@);
                        let rn = resolve_name_spec(evs, imps, path_v, st_before, Seq::empty(), names[p as int], Some(stage_name@), fuel as nat);
                        assert((data@, resolver.state_view()) == rn);
                        assert(resolve_names_spec(evs, imps, path_v, st_job, Seq::empty(), names, Some(stage_name@), fuel as nat, p + 1) == (ds0.push(rn.0), rn.1));
                    }
                    assert(ds.push(data@).drop_last() =~= ds);
                    ds = ds.push(data@);
                }
                template_data = crate::merge::merge_template_data(template_data, data);
                p = p + 1;
            }
            let inherits_resolved = resolver.errors.len() == errors_before;
            let ghost st1 = resolver.state_view();
            let ghost resolved_mid = resolver.resolved@;
            assert(inherits_resolved == (st1.errors.len() == st_job.errors.len()));
            assert(attrs.inherit_names@.len() == names.len());
            let image = match &attrs.image {
                Some(i) => Some(i.clone()),
                None => crate::ir::clone_opt(&template_data.image),
            };
            let needs = if attrs.needs.len() == 0 {
                crate::ir::clone_refs(&template_data.needs)
            } else {
                crate::ir::clone_refs(&attrs.needs)
            };
            let (own_artifacts, own_env) = split_return_annotation(job.syntax());
            let mut artifacts = crate::ir::clone_strs(&template_data.artifacts);
            let mut a: usize = 0;
            let ghost base_artifacts = strs_view(artifacts@);
            while a < own_artifacts.len()
                invariant
                    0 <= a <= own_artifacts@.len(),
                    strs_view(artifacts@) == base_artifacts + strs_view(own_artifacts@).take(a as int),
                decreases own_artifacts@.len() - a,
            {
                let c = own_artifacts[a].clone();
                assert(c@ == own_artifacts@[a as int]@);
                let ghost before = strs_view(artifacts@);
                artifacts.push(c);
                assert(strs_view(artifacts@) =~= before.push(c@));
                assert(strs_view(own_artifacts@).take(a + 1) =~= strs_view(own_artifacts@).take(a as int).push(own_artifacts@[a as int]@));
                assert(strs_view(artifacts@) =~= base_artifacts + strs_view(own_artifacts@).take(a + 1));
                a = a + 1;
            }
            assert(strs_view(own_artifacts@).take(own_artifacts@.len() as int) =~= strs_view(own_artifacts@));
            let env = if own_env.len() == 0 {
                crate::ir::clone_strs(&template_data.env)
            } else {
                own_env
            };
            let no_unsets: Vec<String> = Vec::new();
            let base_vars = crate::merge::without_unset(&template_data.variables, &no_unsets);
            let no_vars: Vec<(String, String)> = Vec::new();
            proof {
                assert(strs_view(no_unsets@) =~= Seq::empty());
                crate::merge::lemma_without_nothing(pairs_view(template_data.variables@));
                assert(pairs_view(no_vars@) =~= Seq::empty());
            }
            let variables = crate::merge::merge_variables(base_vars, no_vars);
            let (script, unresolved_steps) = job_script(job, &template_data.steps);
            assert(strs_view(unresolved_steps@) == spec_job_script(job.node(), merge_all(ds).steps).1);
            let ghost expected = if names.len() > 0 && st1.errors.len() == st_job.errors.len() {
                st1.errors + job_step_errors(stage_name@, job_name@, strs_view(unresolved_steps@))
            } else {
                st1.errors
            };
            // A job with no `inherit` is reported by validation, and a job
            // whose templates failed to resolve has been reported already.
            if attrs.inherit_names.len() > 0 && inherits_resolved {
                let mut u: usize = 0;
                while u < unresolved_steps.len()
                    invariant
                        0 <= u <= unresolved_steps@.len(),
                        resolver.errors_ok(),
                        resolver.memo_ok(),
                        resolver.imports_allowed == imports_allowed,
                        resolver.root@ == path@,
                        resolver.files@.len() > 0,
                        resolver.files@[0].path@ == path@,
                        resolver.files@[0].raw@ == root_raw,
                        resolver.stack@.len() == 0,
                        !inherits_nothing(root.node()),
                        local_case == (!imports_allowed || no_cross_file_names(root.node(), path@)),
                imps == imports_seen(root.node(), path@, imports_allowed),
                local_case ==> resolver.import_names() == imps,
                        local_case ==> resolver.local_mode() && resolver.files@ == files_init && resolver.resolved@ == resolved_mid,
                        local_case ==> errors_view(resolver.errors@) == st1.errors + job_step_errors(
                            stage_name@,
                            job_name@,
                            strs_view(unresolved_steps@).take(u as int),
                        ),
                    decreases unresolved_steps@.len() - u,
                {
                    let step = unresolved_steps[u].clone();
                    let mut m = String::new();
                    m.append("job `");
                    m.append(stage_name.as_str());
                    m.append(".");
                    m.append(job_name.as_str());
                    m.append("` uses step `");
                    m.append(step.as_str());
                    m.append("`, but no template it inherits defines it");
                    assert(m@ =~= job_step_error(stage_name@, job_name@, step@).1);
                    let ghost e0 = resolver.errors@;
                    let err = LowerError {
                        message: m,
                        site: ErrorSite::StepRef { stage: stage_name.clone(), job: job_name.clone(), step },
                    };
                    assert(error_view(err) == job_step_error(stage_name@, job_name@, unresolved_steps@[u as int]@));
                    resolver.errors.push(err);
                    proof {
                        if local_case {
                            let us = strs_view(unresolved_steps@);
                            assert(job_step_errors(stage_name@, job_name@, us.take(u + 1)) =~= job_step_errors(
                                stage_name@,
                                job_name@,
                                us.take(u as int),
                            ).push(error_view(err)));
                            assert(errors_view(resolver.errors@) =~= errors_view(e0).push(error_view(err)));
                        }
                        assert forall|i: int| 0 <= i < resolver.errors@.len() && !resolver.imports_allowed
                            implies is_step_site(#[trigger] resolver.errors@[i].site) by {
                            if i < e0.len() {
                                assert(resolver.errors@[i] == e0[i]);
                            }
                        }
                    }
                    u = u + 1;
                }
                proof {
                    if local_case {
                        assert(strs_view(unresolved_steps@).take(unresolved_steps@.len() as int) =~= strs_view(unresolved_steps@));
                    }
                }
            }
            assert(local_case ==> errors_view(resolver.errors@) == expected);
            let lowered = Job {
                name: job_name,
                stage: stage_name.clone(),
                image,
                script,
                needs,
                artifacts,
                env,
                variables,
            };
            proof {
                assert(job_from(sj[ji as int], stage_name@, template_data@, lowered));
                assert(job_lowered_from(sj[ji as int], stage_name@, ds, lowered));
            }
            let ghost jobs0 = jobs@;
            jobs.push(lowered);
            proof {
                if local_case {
                    let jt = sj.take(ji + 1);
                    assert(jt.drop_last() =~= sj.take(ji as int));
                    assert(jt.last() == job.node());
                    assert(job_spec(evs, imps, path_v, st_job, stage_name@, job.node(), fuel as nat) == (ds, resolver.state_view()));
                    assert(jobs_spec(evs, imps, path_v, st_stage, stage_name@, jt, fuel as nat) == (jdss.push(ds), resolver.state_view()));
                }
                assert forall|m: int| 0 <= m < ji + 1 implies job_lowered_from(sj[m], stage_name@, jdss.push(ds)[m], #[trigger] jobs@[m]) by {
                    if m < ji {
                        assert(jobs@[m] == jobs0[m]);
                    }
                }
                jdss = jdss.push(ds);
                assert forall|m: int| 0 <= m < ji + 1 implies job_lowered(sj[m], stage_name@, #[trigger] jobs@[m]) by {
                    if m < ji {
                        assert(jobs@[m] == jobs0[m]);
                    } else {
                        assert(job_lowered_from(sj[m], stage_name@, ds, jobs@[m]));
                    }
                }
            }
            ji = ji + 1;
        }
        let ghost stages0 = stages@;
        proof {
            assert(sj.take(sj.len() as int) =~= sj);
        }
        stages.push(Stage { name: stage_name, jobs });
        proof {
            let nss0 = stages_with_body(all_stages.take(si + 1));
            assert(nss0 == stages_with_body(prefix).push(all_stages[si as int]));
            assert(stage_lowered_with(all_stages[si as int], stages@.last(), jdss));
            assert forall|k: int| 0 <= k < stages@.len() implies stage_lowered_with(nss0[k], #[trigger] stages@[k], dss.push(jdss)[k]) by {
                if k < stages0.len() {
                    assert(stages@[k] == stages0[k]);
                    assert(nss0[k] == stages_with_body(prefix)[k]);
                }
            }
            if local_case {
                assert(nss0.drop_last() =~= stages_with_body(prefix));
                assert(stages_spec(evs, imps, path_v, empty_state(), nss0, fuel as nat) == (dss.push(jdss), resolver.state_view()));
            }
            dss = dss.push(jdss);
            let nss = stages_with_body(all_stages.take(si + 1));
            assert(nss == stages_with_body(prefix).push(all_stages[si as int]));
            assert(stage_lowered(all_stages[si as int], stages@.last()));
            assert forall|k: int| 0 <= k < stages@.len() implies stage_lowered(nss[k], #[trigger] stages@[k]) by {
                if k < stages0.len() {
                    assert(stages@[k] == stages0[k]);
                    assert(nss[k] == stages_with_body(prefix)[k]);
                }
            }
        }
        si = si + 1;
    }
    assert(all_stages.take(all_stages.len() as int) =~= all_stages);
    let ghost st_stages = resolver.state_view();
    resolver.resolve_root_templates(fuel);
    proof {
        if local_case {
            assert(resolver.state_view() == roots_spec(evs, imps, path_v, st_stages, evs.len() as int, fuel as nat));
            assert(resolution(root.node(), path@, lowering_fuel(root.node(), sources@), imps) == (dss, resolver.state_view()));
        }
    }
    (Workflow { stages, strategy }, resolver.errors)
}

/// Lower a parsed file into a `Workflow`.
///
/// Templates are resolved and inlined into their jobs; the returned
/// `Workflow` contains only concrete jobs. Cross-file references are not
/// resolved, as there is no file to resolve imports against; use
/// `lower_with_path` when the source came from a file.
pub fn lower(root: &Root) -> (r: Workflow)
    ensures
        workflow_lowered(root.node(), r),
        workflow_lowered_with(root.node(), r, local_resolution(root.node(), Seq::empty()).0),
{
    let (w, _) = lower_partial(root);
    w
}

/// Lower a parsed file like `lower`, returning what couldn't be resolved
/// alongside the workflow: only bare step references, as imports aren't
/// followed.
pub fn lower_partial(root: &Root) -> (r: (Workflow, Vec<LowerError>))
    ensures
        workflow_lowered(root.node(), r.0),
        forall|i: int| 0 <= i < r.1@.len() ==> is_step_site(#[trigger] r.1@[i].site),
        inherits_nothing(root.node()) ==> r.1@.len() == 0,
        workflow_lowered_with(root.node(), r.0, local_resolution(root.node(), Seq::empty()).0),
        errors_view(r.1@) == local_resolution(root.node(), Seq::empty()).1.errors,
{
    let none: Vec<SourceFile> = Vec::new();
    proof {
        reveal_strlit("");
    }
    assert(""@ =~= Seq::<char>::empty());
    lower_inner(root, "", false, &none)
}

/// Lower a parsed file into a `Workflow`, resolving cross-file template
/// references through its `use` imports.
///
/// Paths in `use` imports are resolved relative to `path`'s directory, and
/// the files they refer to are looked up in `sources`.
///
/// Cross-file reference formats:
/// - `ns/tmpl`: top-level template in the imported file
/// - `ns/stage.tmpl`: template inside `stage` in the imported file
///
/// Fails, with the first reason, if a reference can't be resolved; a file
/// in which nothing inherits a template has none to resolve.
pub fn lower_with_path(root: &Root, path: &str, sources: &Vec<SourceFile>) -> (r: Result<Workflow, String>)
    ensures
        r matches Ok(w) ==> workflow_lowered(root.node(), w),
        inherits_nothing(root.node()) ==> r is Ok,
        no_cross_file_names(root.node(), path@) ==> {
            let res = import_resolution(root.node(), path@, lowering_fuel(root.node(), sources@));
            &&& (r is Ok <==> res.1.errors.len() == 0)
            &&& r matches Ok(w) ==> workflow_lowered_with(root.node(), w, res.0)
            &&& r matches Err(m) ==> m@ == res.1.errors[0].1
        },
{
    let (workflow, errors) = lower_with_path_partial(root, path, sources);
    proof {
        if errors@.len() > 0 {
            assert(errors_view(errors@)[0] == error_view(errors@[0]));
        }
    }
    lowering_outcome(workflow, errors)
}

/// The outcome of a lowering that found `errors`: the workflow when there
/// are none, and otherwise the first one's message.
pub fn lowering_outcome(workflow: Workflow, errors: Vec<LowerError>) -> (r: Result<Workflow, String>)
    ensures
        errors@.len() == 0 ==> r == Ok::<Workflow, String>(workflow),
        errors@.len() > 0 ==> (r matches Err(m) && m@ == errors@[0].message@),
{
    if errors.len() > 0 {
        Err(errors[0].message.clone())
    } else {
        Ok(workflow)
    }
}

/// Lower a parsed file like `lower_with_path`, but without stopping at
/// references which can't be resolved.
///
/// Each such reference contributes nothing to the job or template inheriting
/// it, and the reason is returned alongside the workflow, so that the rest of
/// the workflow can be checked in the same pass.
pub fn lower_with_path_partial(root: &Root, path: &str, sources: &Vec<SourceFile>) -> (r: (Workflow, Vec<LowerError>))
    ensures
        workflow_lowered(root.node(), r.0),
        inherits_nothing(root.node()) ==> r.1@.len() == 0,
        no_cross_file_names(root.node(), path@) ==> {
            &&& workflow_lowered_with(root.node(), r.0, import_resolution(root.node(), path@, lowering_fuel(root.node(), sources@)).0)
            &&& errors_view(r.1@) == import_resolution(root.node(), path@, lowering_fuel(root.node(), sources@)).1.errors
        },
{
    lower_inner(root, path, true, sources)
}

} // verus!

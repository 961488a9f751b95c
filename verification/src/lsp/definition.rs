//! Go to definition: from a template reference, a dependency, or a `use`
//! import to what it names.
use vstd::prelude::*;

use crate::ast::{AstNode, Root, attr_scalar, name_token, seq_path, spec_attr_scalar, spec_key_text, spec_name, spec_name_token, spec_ref_text};
use crate::cst::{Node, Token, lemma_child_nodes_kind, spec_child_node, spec_child_nodes};
use crate::lsp::templates::{
    SourceTree, def_view, derefs, file_at, find_def, find_file, find_named, first_named, id_view, lemma_first_named_found, key_is,
    lemma_child_nodes, lemma_root_items, opt_def, opt_ref_view, ref_at, spec_find_def, spec_ref_at, stages_of,
};
use crate::lsp::{
    Located, anc_nodes, root_token_at, spec_token_at, Position, Range, kind_above, kind_up, located_ok, range_to_lsp, spec_range, spec_token_range, tok_end,
    token_at, token_range, up,
};
use crate::parser::Parse;
use crate::paths::{join_path, normalize, parent_dir, spec_join_path, spec_normalize, spec_parent_dir};
use crate::syntax::SyntaxKind;
use crate::text::{spec_split_once, split_once};

verus! {

/// A place in a file: its path and a range of it.
#[derive(Debug)]
pub struct Location {
    pub path: String,
    pub range: Range,
}

pub open spec fn loc_view(l: Location) -> (Seq<char>, Range) {
    (l.path@, l.range)
}

pub open spec fn opt_loc(o: Option<Location>) -> Option<(Seq<char>, Range)> {
    match o {
        Some(l) => Some(loc_view(l)),
        None => None,
    }
}

/// The start of a file.
pub open spec fn file_start() -> Range {
    Range { start: Position { line: 0, character: 0 }, end: Position { line: 0, character: 0 } }
}

/// The definition of the template an `inherit` reference names.
pub open spec fn spec_resolve_inherit(
    root: Node,
    source: Seq<char>,
    file_path: Seq<char>,
    files: Seq<SourceTree>,
    p: Seq<&Node>,
    t: Token,
) -> Option<(Seq<char>, Range)> {
    match spec_ref_at(root, file_path, p, t) {
        Some(rv) => match spec_find_def(rv.0, root, source, files) {
            Some(d) => Some(
                (
                    match d.0 {
                        Some(path) => path,
                        None => file_path,
                    },
                    spec_range(d.1, d.2),
                ),
            ),
            None => None,
        },
        None => None,
    }
}

/// `t`, with ancestors `p`, is an identifier of an item of a `dependencies` list.
pub open spec fn in_dependency_ref(p: Seq<&Node>, t: Token) -> bool {
    &&& t.kind == SyntaxKind::Ident
    &&& kind_up(p, 0) == Some(SyntaxKind::Ref)
    &&& kind_up(p, 1) == Some(SyntaxKind::RefList)
    &&& kind_up(p, 2) == Some(SyntaxKind::AttrValue)
    &&& kind_up(p, 3) == Some(SyntaxKind::Attr)
    &&& spec_key_text(up(p, 3).unwrap()) == Some("dependencies"@)
}

/// The job called `job` of the first stage called `stage`.
pub open spec fn spec_find_job(root: Node, stage: Seq<char>, job: Seq<char>) -> Option<Node> {
    match first_named(stages_of(root), stage) {
        Some(st) => match spec_child_node(st, SyntaxKind::StageBody) {
            Some(b) => first_named(spec_child_nodes(b.children@, SyntaxKind::Job), job),
            None => None,
        },
        None => None,
    }
}

/// The job a `stage.job` dependency names, by its name.
pub open spec fn spec_resolve_dependency(root: Node, source: Seq<char>, file_path: Seq<char>, p: Seq<&Node>, t: Token) -> Option<
    (Seq<char>, Range),
> {
    if in_dependency_ref(p, t) {
        match spec_split_once(spec_ref_text(up(p, 0).unwrap()), '.') {
            Some((stage, job)) => match spec_find_job(root, stage, job) {
                Some(j) => match spec_name_token(j) {
                    Some(nt) => Some((file_path, spec_range(source, spec_token_range(nt)))),
                    None => None,
                },
                None => None,
            },
            None => None,
        }
    } else {
        None
    }
}

/// The `ji`-th job declared in the body of the `si`-th stage of the file.
pub open spec fn stage_job(root: Node, si: int, ji: int) -> Option<Node> {
    if 0 <= si < stages_of(root).len() {
        match spec_child_node(stages_of(root)[si], SyntaxKind::StageBody) {
            Some(b) => if 0 <= ji < spec_child_nodes(b.children@, SyntaxKind::Job).len() {
                Some(spec_child_nodes(b.children@, SyntaxKind::Job)[ji])
            } else {
                None
            },
            None => None,
        }
    } else {
        None
    }
}

/// `nt` is the name of a job called `job`, declared in the body of a stage
/// of the file called `stage`.
pub open spec fn declares_job_name(root: Node, stage: Seq<char>, job: Seq<char>, nt: Token) -> bool {
    exists|si: int, ji: int| #![trigger stage_job(root, si, ji)]
        0 <= si < stages_of(root).len() && spec_name(stages_of(root)[si]) == Some(stage) && (stage_job(
            root,
            si,
            ji,
        ) matches Some(j) && j.kind == SyntaxKind::Job && spec_name_token(j) == Some(nt) && nt.text@ == job)
}

/// Going to the definition of a `stage.job` dependency lands on the name of
/// the job it names: the name token of a job called `job`, declared in the
/// body of a stage called `stage`.
pub proof fn lemma_dependency_goes_to_job_name(root: Node, source: Seq<char>, file_path: Seq<char>, p: Seq<&Node>, t: Token)
    requires
        spec_resolve_dependency(root, source, file_path, p, t) is Some,
    ensures
        spec_split_once(spec_ref_text(up(p, 0).unwrap()), '.') matches Some((stage, job)) && (exists|nt: Token|
            #[trigger] declares_job_name(root, stage, job, nt)
                && spec_resolve_dependency(root, source, file_path, p, t) == Some((file_path, spec_range(source, spec_token_range(nt))))),
{
    let (stage, job) = spec_split_once(spec_ref_text(up(p, 0).unwrap()), '.').unwrap();
    let stages = stages_of(root);
    let st = first_named(stages, stage).unwrap();
    lemma_first_named_found(stages, stage, 0);
    let si = choose|k: int| 0 <= k < stages.len() && #[trigger] stages[k] == st && spec_name(st) == Some(stage);
    let b = spec_child_node(st, SyntaxKind::StageBody).unwrap();
    let jobs = spec_child_nodes(b.children@, SyntaxKind::Job);
    let j = first_named(jobs, job).unwrap();
    lemma_first_named_found(jobs, job, 0);
    let ji = choose|k: int| 0 <= k < jobs.len() && #[trigger] jobs[k] == j && spec_name(j) == Some(job);
    lemma_child_nodes_kind(b.children@, SyntaxKind::Job, ji);
    let nt = spec_name_token(j).unwrap();
    assert(stage_job(root, si, ji) == Some(j));
    assert(declares_job_name(root, stage, job, nt));
}

/// `path` is a file among `files`.
pub open spec fn known(files: Seq<SourceTree>, path: Seq<char>) -> bool {
    file_at(files, spec_normalize(path)) is Some
}

/// The file the `path` attribute of a `use` import names.
pub open spec fn spec_resolve_location_attr(file_path: Seq<char>, files: Seq<SourceTree>, p: Seq<&Node>, t: Token) -> Option<
    (Seq<char>, Range),
> {
    if t.kind == SyntaxKind::BareValue && kind_up(p, 0) == Some(SyntaxKind::AttrValue) && kind_up(p, 1) == Some(
        SyntaxKind::Attr,
    ) && spec_key_text(up(p, 1).unwrap()) == Some("path"@) && kind_up(p, 3) == Some(SyntaxKind::UseDecl) {
        let target = spec_join_path(spec_parent_dir(file_path), t.text@);
        if known(files, target) {
            Some((target, file_start()))
        } else {
            None
        }
    } else {
        None
    }
}

/// The file the `use` import whose name is `t` brings in.
pub open spec fn spec_resolve_import_name(file_path: Seq<char>, files: Seq<SourceTree>, p: Seq<&Node>, t: Token) -> Option<
    (Seq<char>, Range),
> {
    if t.kind == SyntaxKind::Ident && kind_up(p, 0) == Some(SyntaxKind::Name) && kind_up(p, 1) == Some(
        SyntaxKind::UseDecl,
    ) {
        match spec_attr_scalar(up(p, 1).unwrap(), seq_path()) {
            Some(loc) => {
                let target = spec_join_path(spec_parent_dir(file_path), loc);
                if known(files, target) {
                    Some((target, file_start()))
                } else {
                    None
                }
            },
            None => None,
        }
    } else {
        None
    }
}

/// What the token `t`, with ancestors `p`, of the file `root` at
/// `file_path` refers to: a template, a job, or an imported file, in that
/// order of preference.
pub open spec fn spec_definition(
    root: Node,
    source: Seq<char>,
    file_path: Seq<char>,
    files: Seq<SourceTree>,
    p: Seq<&Node>,
    t: Token,
) -> Option<(Seq<char>, Range)> {
    match spec_resolve_inherit(root, source, file_path, files, p, t) {
        Some(l) => Some(l),
        None => match spec_resolve_dependency(root, source, file_path, p, t) {
            Some(l) => Some(l),
            None => match spec_resolve_location_attr(file_path, files, p, t) {
                Some(l) => Some(l),
                None => spec_resolve_import_name(file_path, files, p, t),
            },
        },
    }
}

fn resolve_inherit(
    l: &Located,
    root: &Root,
    source: &str,
    file_path: &str,
    files: &Vec<SourceTree>,
) -> (r: Option<Location>)
    ensures
        opt_loc(r) == spec_resolve_inherit(root.node(), source@, file_path@, files@, l.ancestors@, *l.token),
{
    let template_ref = match ref_at(l, root, file_path) {
        Some(r) => r,
        None => return None,
    };
    let def = match find_def(&template_ref.id, root, source, files) {
        Some(d) => d,
        None => return None,
    };
    let path = match &def.path {
        Some(p) => p.clone(),
        None => file_path.to_string(),
    };
    Some(Location { path, range: range_to_lsp(def.source.as_str(), def.name_range) })
}

/// `true` if the located token is an identifier of an item of a `dependencies` list.
pub fn is_dependency_ident(l: &Located) -> (r: bool)
    ensures
        r == in_dependency_ref(l.ancestors@, *l.token),
{
    let p = &l.ancestors;
    l.token.kind == SyntaxKind::Ident && kind_above(p, 0) == Some(SyntaxKind::Ref) && kind_above(p, 1) == Some(
        SyntaxKind::RefList,
    ) && kind_above(p, 2) == Some(SyntaxKind::AttrValue) && kind_above(p, 3) == Some(SyntaxKind::Attr) && key_is(
        p[p.len() - 4],
        "dependencies",
    )
}

/// The job called `job` of the first stage called `stage`.
pub fn find_job<'a>(root: &Root<'a>, stage: &str, job: &str) -> (r: Option<&'a Node>)
    ensures
        r matches Some(j) ==> spec_find_job(root.node(), stage@, job@) == Some(*j),
        r is None ==> spec_find_job(root.node(), stage@, job@) is None,
{
    let stages = root.body_items(SyntaxKind::Stage);
    proof {
        lemma_root_items(root, stages@, SyntaxKind::Stage);
    }
    let st = match find_named(&stages, stage) {
        Some(s) => s,
        None => return None,
    };
    let body = match st.child_node(SyntaxKind::StageBody) {
        Some(b) => b,
        None => return None,
    };
    let jobs = body.child_nodes(SyntaxKind::Job);
    proof {
        lemma_child_nodes(*body, jobs@, SyntaxKind::Job);
    }
    find_named(&jobs, job)
}

fn resolve_dependency(l: &Located, root: &Root, source: &str, file_path: &str) -> (r: Option<Location>)
    ensures
        opt_loc(r) == spec_resolve_dependency(root.node(), source@, file_path@, l.ancestors@, *l.token),
{
    if !is_dependency_ident(l) {
        return None;
    }
    let p = &l.ancestors;
    let ref_node = p[p.len() - 1];
    let text = crate::ast::Ref::cast(ref_node).unwrap().text();
    let (stage_name, job_name) = match split_once(text.as_str(), '.') {
        Some(parts) => parts,
        None => return None,
    };
    let job = match find_job(root, stage_name.as_str(), job_name.as_str()) {
        Some(j) => j,
        None => return None,
    };
    match name_token(job) {
        Some(t) => Some(Location { path: file_path.to_string(), range: range_to_lsp(source, token_range(t)) }),
        None => None,
    }
}

/// `true` if `path` is a file among `files`.
fn is_known(files: &Vec<SourceTree>, path: &str) -> (r: bool)
    ensures
        r == known(files@, path@),
{
    let n = normalize(path);
    find_file(files, n.as_str()).is_some()
}

fn start_range() -> (r: Range)
    ensures
        r == file_start(),
{
    Range { start: Position { line: 0, character: 0 }, end: Position { line: 0, character: 0 } }
}

fn resolve_location_attr(l: &Located, file_path: &str, files: &Vec<SourceTree>) -> (r: Option<Location>)
    ensures
        opt_loc(r) == spec_resolve_location_attr(file_path@, files@, l.ancestors@, *l.token),
{
    let p = &l.ancestors;
    if !(l.token.kind == SyntaxKind::BareValue && kind_above(p, 0) == Some(SyntaxKind::AttrValue) && kind_above(p, 1)
        == Some(SyntaxKind::Attr) && key_is(p[p.len() - 2], "path") && kind_above(p, 3) == Some(SyntaxKind::UseDecl)) {
        return None;
    }
    let base = parent_dir(file_path);
    let target = join_path(base.as_str(), l.token.text.as_str());
    if !is_known(files, target.as_str()) {
        return None;
    }
    Some(Location { path: target, range: start_range() })
}

fn resolve_import_name(l: &Located, file_path: &str, files: &Vec<SourceTree>) -> (r: Option<Location>)
    ensures
        opt_loc(r) == spec_resolve_import_name(file_path@, files@, l.ancestors@, *l.token),
{
    let p = &l.ancestors;
    if !(l.token.kind == SyntaxKind::Ident && kind_above(p, 0) == Some(SyntaxKind::Name) && kind_above(p, 1) == Some(
        SyntaxKind::UseDecl,
    )) {
        return None;
    }
    proof {
        reveal_strlit("path");
        assert("path"@ =~= seq_path());
    }
    let path_val = match attr_scalar(p[p.len() - 2], "path") {
        Some(v) => v,
        None => return None,
    };
    let base = parent_dir(file_path);
    let target = join_path(base.as_str(), path_val.as_str());
    if !is_known(files, target.as_str()) {
        return None;
    }
    Some(Location { path: target, range: start_range() })
}

/// What the located token of the file `root`, whose text is `source` and
/// whose path is `file_path`, refers to, looking into `files` for imports.
pub fn definition_for(
    l: &Located,
    root: &Root,
    source: &str,
    file_path: &str,
    files: &Vec<SourceTree>,
) -> (r: Option<Location>)
    ensures
        opt_loc(r) == spec_definition(root.node(), source@, file_path@, files@, l.ancestors@, *l.token),
{
    match resolve_inherit(l, root, source, file_path, files) {
        Some(loc) => Some(loc),
        None => match resolve_dependency(l, root, source, file_path) {
            Some(loc) => Some(loc),
            None => match resolve_location_attr(l, file_path, files) {
                Some(loc) => Some(loc),
                None => resolve_import_name(l, file_path, files),
            },
        },
    }
}

/// Where what stands at `offset` of a parsed document is defined.
pub fn resolve(
    parse: &Parse,
    source: &str,
    offset: usize,
    file_path: &str,
    files: &Vec<SourceTree>,
) -> (r: Option<Location>)
    ensures
        match root_token_at(parse.tree(), offset as int) {
            None => r is None,
            Some(lt) => exists|p: Seq<&Node>| #[trigger] anc_nodes(p) == lt.0
                && opt_loc(r) == spec_definition(parse.tree(), source@, file_path@, files@, p, lt.1),
        },
{
    let root_node = parse.syntax();
    let l = match token_at(root_node, offset) {
        Some(l) => l,
        None => return None,
    };
    let root = match Root::cast(root_node) {
        Some(r) => r,
        None => return None,
    };
    assert(anc_nodes(l.ancestors@) == root_token_at(parse.tree(), offset as int).unwrap().0);
    definition_for(&l, &root, source, file_path, files)
}

} // verus!

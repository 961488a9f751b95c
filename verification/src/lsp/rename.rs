//! Rename: the stage, job or template at a position, everywhere it is named
//! in the document.
use vstd::prelude::*;

use crate::ast::{AstNode, Root, name_token, spec_attr_value, spec_key_text, spec_name_token};
use crate::cst::{Node, Token, spec_child_node, spec_child_nodes};
use crate::lsp::definition::{find_job, in_dependency_ref, is_dependency_ident, spec_find_job};
use crate::lsp::templates::{
    RefView, SourceTree, TemplateFile, TemplateId, all_refs, def_at, derefs, find_def, find_named, first_named,
    id_view, key_is, lemma_child_nodes, lemma_root_items, opt_seq, ref_at, ref_ident_tokens, ref_idents, ref_views,
    same_id, spec_all_refs, spec_def_at, spec_find_def, spec_ref_at, stages_of,
};
use crate::lsp::{
    Located, anc_nodes, root_token_at, spec_token_at, Range, TextRange, concat_map, enclosing_stage_name, kind_above, kind_up, lemma_concat_map_step,
    lemma_concat_map_whole, located_ok, range_to_lsp, spec_range, spec_token_range, stage_name_at, tok_end, token_at,
    token_range, up,
};
use crate::parser::Parse;
use crate::syntax::SyntaxKind;
use crate::text::{chars_of, str_eq, substring};
use crate::validation::spec_attrs;

verus! {

/// A replacement of a range of the document.
#[derive(Debug)]
pub struct TextEdit {
    pub range: Range,
    pub new_text: String,
}

/// What can be renamed at a position: its range, and its current text.
#[derive(Debug)]
pub struct PrepareRename {
    pub range: Range,
    pub placeholder: String,
}

pub type EditView = (Range, Seq<char>);

pub open spec fn edit_view(e: TextEdit) -> EditView {
    (e.range, e.new_text@)
}

pub open spec fn edits_view(v: Seq<TextEdit>) -> Seq<EditView> {
    v.map_values(|e: TextEdit| edit_view(e))
}

pub open spec fn opt_edits(o: Option<Vec<TextEdit>>) -> Option<Seq<EditView>> {
    match o {
        Some(v) => Some(edits_view(v@)),
        None => None,
    }
}

/// Imports are resolved only to tell a local template reference from one in
/// another file, which rename doesn't touch, so no real path is needed.
pub open spec fn local_path() -> Seq<char> {
    "."@
}

// ─── what can be renamed ─────────────────────────────────────────────────────

/// The range of the renameable name at the token `t` with ancestors `p`:
/// a stage, job or template name, either part of a dependency, or the name
/// part of an `inherit` reference to a template of this file.
pub open spec fn spec_rename_range(root: Node, p: Seq<&Node>, t: Token) -> Option<TextRange> {
    if t.kind == SyntaxKind::Ident && kind_up(p, 0) == Some(SyntaxKind::Name) && (kind_up(p, 1) == Some(
        SyntaxKind::Stage,
    ) || kind_up(p, 1) == Some(SyntaxKind::Job) || kind_up(p, 1) == Some(SyntaxKind::TemplateDef)) {
        Some(spec_token_range(t))
    } else if in_dependency_ref(p, t) {
        Some(spec_token_range(t))
    } else {
        match spec_ref_at(root, local_path(), p, t) {
            Some(rv) => if rv.0.0 is None {
                Some(rv.1)
            } else {
                None
            },
            None => None,
        }
    }
}

/// Returns the text range of the renameable symbol at the located token.
pub fn rename_range(l: &Located, root: &Root) -> (r: Option<TextRange>)
    ensures
        r == spec_rename_range(root.node(), l.ancestors@, *l.token),
{
    let p = &l.ancestors;
    if l.token.kind == SyntaxKind::Ident && kind_above(p, 0) == Some(SyntaxKind::Name) {
        let owner = kind_above(p, 1);
        if owner == Some(SyntaxKind::Stage) || owner == Some(SyntaxKind::Job) || owner == Some(SyntaxKind::TemplateDef) {
            return Some(token_range(l.token));
        }
    }
    if is_dependency_ident(l) {
        return Some(token_range(l.token));
    }
    // Only the name part of an `inherit` reference is renamed, and only when
    // the template is in this file: an edit can't reach another one.
    proof {
        reveal_strlit(".");
    }
    let template_ref = match ref_at(l, root, ".") {
        Some(r) => r,
        None => return None,
    };
    match template_ref.id.file {
        TemplateFile::Current => Some(template_ref.name_range),
        TemplateFile::Imported(_) => None,
    }
}

/// The text of `source` in `range`, or `fallback` where the range is not
/// one of it.
pub open spec fn text_in(source: Seq<char>, range: TextRange, fallback: Seq<char>) -> Seq<char> {
    if range.start <= range.end <= source.len() {
        source.subrange(range.start as int, range.end as int)
    } else {
        fallback
    }
}

/// `pr` is what renaming at the token `t`, with ancestors `p`, replaces.
pub open spec fn prepared(root: Node, source: Seq<char>, p: Seq<&Node>, t: Token, pr: PrepareRename) -> bool {
    match spec_rename_range(root, p, t) {
        Some(range) => pr.range == spec_range(source, range) && pr.placeholder@ == text_in(source, range, t.text@),
        None => false,
    }
}

/// What renaming at the located token would replace, with its current text.
pub fn prepare_at(l: &Located, root: &Root, source: &str) -> (r: Option<PrepareRename>)
    ensures
        match r {
            Some(pr) => prepared(root.node(), source@, l.ancestors@, *l.token, pr),
            None => spec_rename_range(root.node(), l.ancestors@, *l.token) is None,
        },
{
    let range = match rename_range(l, root) {
        Some(r) => r,
        None => return None,
    };
    let cs = chars_of(source);
    let placeholder = if range.start <= range.end && range.end <= cs.len() {
        substring(&cs, range.start, range.end)
    } else {
        l.token.text.clone()
    };
    Some(PrepareRename { range: range_to_lsp(source, range), placeholder })
}

/// The rename range and placeholder at `offset`, if the position is renameable.
pub fn prepare(parse: &Parse, source: &str, offset: usize) -> (r: Option<PrepareRename>)
    ensures
        match root_token_at(parse.tree(), offset as int) {
            None => r is None,
            Some(lt) => exists|p: Seq<&Node>| #[trigger] anc_nodes(p) == lt.0 && match r {
                Some(pr) => prepared(parse.tree(), source@, p, lt.1, pr),
                None => spec_rename_range(parse.tree(), p, lt.1) is None,
            },
        },
{
    let l = match token_at(parse.syntax(), offset) {
        Some(l) => l,
        None => return None,
    };
    let root = match Root::cast(parse.syntax()) {
        Some(r) => r,
        None => return None,
    };
    assert(anc_nodes(l.ancestors@) == root_token_at(parse.tree(), offset as int).unwrap().0);
    prepare_at(&l, &root, source)
}

// ─── dependency references ───────────────────────────────────────────────────

/// The stage and job identifiers of an item of a `dependencies` list.
pub open spec fn pair_ref(r: Node) -> Seq<(Token, Option<Token>)> {
    let ids = ref_idents(r);
    if ids.len() >= 1 {
        seq![
            (
                ids[0],
                if ids.len() >= 2 {
                    Some(ids[1])
                } else {
                    None
                },
            ),
        ]
    } else {
        Seq::empty()
    }
}

pub open spec fn pair_ref_f() -> spec_fn(Node) -> Seq<(Token, Option<Token>)> {
    |r: Node| pair_ref(r)
}

pub open spec fn pair_attr(a: Node) -> Seq<(Token, Option<Token>)> {
    if spec_key_text(a) == Some("dependencies"@) {
        match spec_attr_value(a) {
            Some(v) => match spec_child_node(v, SyntaxKind::RefList) {
                Some(rl) => concat_map(spec_child_nodes(rl.children@, SyntaxKind::Ref), pair_ref_f()),
                None => Seq::empty(),
            },
            None => Seq::empty(),
        }
    } else {
        Seq::empty()
    }
}

pub open spec fn pair_attr_f() -> spec_fn(Node) -> Seq<(Token, Option<Token>)> {
    |a: Node| pair_attr(a)
}

pub open spec fn pair_job_f() -> spec_fn(Node) -> Seq<(Token, Option<Token>)> {
    |j: Node| concat_map(spec_attrs(j), pair_attr_f())
}

pub open spec fn pair_stage_f() -> spec_fn(Node) -> Seq<(Token, Option<Token>)> {
    |s: Node| match spec_child_node(s, SyntaxKind::StageBody) {
        Some(b) => concat_map(spec_child_nodes(b.children@, SyntaxKind::Job), pair_job_f()),
        None => Seq::empty(),
    }
}

/// The stage and job identifiers of every dependency of every job.
pub open spec fn spec_dep_pairs(root: Node) -> Seq<(Token, Option<Token>)> {
    concat_map(stages_of(root), pair_stage_f())
}

pub open spec fn pairs_view(v: Seq<(&Token, Option<&Token>)>) -> Seq<(Token, Option<Token>)> {
    v.map_values(
        |e: (&Token, Option<&Token>)|
            (
                *e.0,
                match e.1 {
                    Some(t) => Some(*t),
                    None => None,
                },
            ),
    )
}

/// Add the dependency identifiers of the attributes of `owner` to `out`.
fn push_owner_pairs<'a>(owner: &'a Node, out: &mut Vec<(&'a Token, Option<&'a Token>)>)
    ensures
        pairs_view(final(out)@) == pairs_view(old(out)@) + concat_map(spec_attrs(*owner), pair_attr_f()),
{
    let ghost start = pairs_view(out@);
    let al = match owner.child_node(SyntaxKind::AttrList) {
        Some(al) => al,
        None => {
            assert(pairs_view(out@) =~= start + concat_map(spec_attrs(*owner), pair_attr_f()));
            return ;
        },
    };
    let attrs = al.child_nodes(SyntaxKind::Attr);
    proof {
        lemma_child_nodes(*al, attrs@, SyntaxKind::Attr);
    }
    let ghost sa = derefs(attrs@);
    assert(sa == spec_attrs(*owner));
    let mut i: usize = 0;
    while i < attrs.len()
        invariant
            0 <= i <= attrs@.len(),
            sa == derefs(attrs@),
            pairs_view(out@) == start + concat_map(sa.take(i as int), pair_attr_f()),
        decreases attrs@.len() - i,
    {
        let ghost before = pairs_view(out@);
        let attr = attrs[i];
        assert(sa[i as int] == *attr);
        if key_is(attr, "dependencies") {
            match attr.child_node(SyntaxKind::AttrValue) {
                Some(av) => match av.child_node(SyntaxKind::RefList) {
                    Some(rl) => {
                        let refs = rl.child_nodes(SyntaxKind::Ref);
                        proof {
                            lemma_child_nodes(*rl, refs@, SyntaxKind::Ref);
                        }
                        let ghost sr = derefs(refs@);
                        let mut k: usize = 0;
                        while k < refs.len()
                            invariant
                                0 <= k <= refs@.len(),
                                sr == derefs(refs@),
                                pairs_view(out@) == before + concat_map(sr.take(k as int), pair_ref_f()),
                            decreases refs@.len() - k,
                        {
                            let ghost b2 = pairs_view(out@);
                            assert(sr[k as int] == *refs@[k as int]);
                            let ids = ref_ident_tokens(refs[k]);
                            if ids.len() >= 1 {
                                let second = if ids.len() >= 2 {
                                    Some(ids[1])
                                } else {
                                    None
                                };
                                out.push((ids[0], second));
                            }
                            assert(pairs_view(out@) =~= b2 + pair_ref(sr[k as int]));
                            proof {
                                lemma_concat_map_step(sr, pair_ref_f(), k as int);
                                assert(pairs_view(out@) =~= before + concat_map(sr.take(k + 1), pair_ref_f()));
                            }
                            k = k + 1;
                        }
                        proof {
                            lemma_concat_map_whole(sr, pair_ref_f());
                        }
                    },
                    None => {},
                },
                None => {},
            }
        }
        proof {
            assert(pairs_view(out@) =~= before + pair_attr(sa[i as int]));
            lemma_concat_map_step(sa, pair_attr_f(), i as int);
            assert(pairs_view(out@) =~= start + concat_map(sa.take(i + 1), pair_attr_f()));
        }
        i = i + 1;
    }
    proof {
        lemma_concat_map_whole(sa, pair_attr_f());
    }
}

/// The stage and job identifiers of every `dependencies` item of every job.
pub fn all_dep_ref_pairs<'a>(root: &Root<'a>) -> (r: Vec<(&'a Token, Option<&'a Token>)>)
    ensures
        pairs_view(r@) == spec_dep_pairs(root.node()),
{
    let mut pairs: Vec<(&'a Token, Option<&'a Token>)> = Vec::new();
    let stages = root.body_items(SyntaxKind::Stage);
    proof {
        lemma_root_items(root, stages@, SyntaxKind::Stage);
    }
    let ghost ss = derefs(stages@);
    assert(pairs_view(pairs@) =~= Seq::empty());
    let mut i: usize = 0;
    while i < stages.len()
        invariant
            0 <= i <= stages@.len(),
            ss == derefs(stages@),
            ss == stages_of(root.node()),
            pairs_view(pairs@) == concat_map(ss.take(i as int), pair_stage_f()),
        decreases stages@.len() - i,
    {
        let ghost before = pairs_view(pairs@);
        assert(ss[i as int] == *stages@[i as int]);
        match stages[i].child_node(SyntaxKind::StageBody) {
            Some(body) => {
                let jobs = body.child_nodes(SyntaxKind::Job);
                proof {
                    lemma_child_nodes(*body, jobs@, SyntaxKind::Job);
                }
                let ghost sj = derefs(jobs@);
                let mut j: usize = 0;
                while j < jobs.len()
                    invariant
                        0 <= j <= jobs@.len(),
                        sj == derefs(jobs@),
                        pairs_view(pairs@) == before + concat_map(sj.take(j as int), pair_job_f()),
                    decreases jobs@.len() - j,
                {
                    assert(sj[j as int] == *jobs@[j as int]);
                    push_owner_pairs(jobs[j], &mut pairs);
                    proof {
                        lemma_concat_map_step(sj, pair_job_f(), j as int);
                        assert(pairs_view(pairs@) =~= before + concat_map(sj.take(j + 1), pair_job_f()));
                    }
                    j = j + 1;
                }
                proof {
                    lemma_concat_map_whole(sj, pair_job_f());
                }
            },
            None => {},
        }
        proof {
            assert(pairs_view(pairs@) =~= before + pair_stage_f()(ss[i as int]));
            lemma_concat_map_step(ss, pair_stage_f(), i as int);
            assert(pairs_view(pairs@) =~= concat_map(ss.take(i + 1), pair_stage_f()));
        }
        i = i + 1;
    }
    proof {
        lemma_concat_map_whole(ss, pair_stage_f());
    }
    pairs
}

/// The stage identifiers of `pairs` that are `stage`.
pub open spec fn stage_tokens(pairs: Seq<(Token, Option<Token>)>, stage: Seq<char>) -> Seq<Token>
    decreases pairs.len(),
{
    if pairs.len() == 0 {
        Seq::empty()
    } else {
        stage_tokens(pairs.drop_last(), stage) + if pairs.last().0.text@ == stage {
            seq![pairs.last().0]
        } else {
            Seq::empty()
        }
    }
}

/// The job identifiers of `pairs` that are `job` of `stage`.
pub open spec fn job_tokens(pairs: Seq<(Token, Option<Token>)>, stage: Seq<char>, job: Seq<char>) -> Seq<Token>
    decreases pairs.len(),
{
    if pairs.len() == 0 {
        Seq::empty()
    } else {
        job_tokens(pairs.drop_last(), stage, job) + if pairs.last().0.text@ == stage && pairs.last().1 is Some
            && pairs.last().1.unwrap().text@ == job {
            seq![pairs.last().1.unwrap()]
        } else {
            Seq::empty()
        }
    }
}

pub open spec fn token_edits(source: Seq<char>, ts: Seq<Token>, new_name: Seq<char>) -> Seq<EditView> {
    ts.map_values(|t: Token| (spec_range(source, spec_token_range(t)), new_name))
}

fn push_edit(out: &mut Vec<TextEdit>, source: &str, range: TextRange, new_name: &str)
    ensures
        edits_view(final(out)@) == edits_view(old(out)@).push((spec_range(source@, range), new_name@)),
{
    let ghost before = edits_view(out@);
    out.push(TextEdit { range: range_to_lsp(source, range), new_text: new_name.to_string() });
    assert(edits_view(out@) =~= before.push((spec_range(source@, range), new_name@)));
}

/// An edit for each of `pairs` whose stage identifier is `stage`.
fn push_stage_token_edits(
    pairs: &Vec<(&Token, Option<&Token>)>,
    stage: &str,
    source: &str,
    new_name: &str,
    out: &mut Vec<TextEdit>,
)
    ensures
        edits_view(final(out)@) == edits_view(old(out)@) + token_edits(source@, stage_tokens(pairs_view(pairs@), stage@), new_name@),
{
    let ghost start = edits_view(out@);
    let ghost pv = pairs_view(pairs@);
    let mut i: usize = 0;
    while i < pairs.len()
        invariant
            0 <= i <= pairs@.len(),
            pv == pairs_view(pairs@),
            edits_view(out@) == start + token_edits(source@, stage_tokens(pv.take(i as int), stage@), new_name@),
        decreases pairs@.len() - i,
    {
        assert(pv.take(i + 1).drop_last() =~= pv.take(i as int));
        let ghost before = stage_tokens(pv.take(i as int), stage@);
        if str_eq(pairs[i].0.text.as_str(), stage) {
            push_edit(out, source, token_range(pairs[i].0), new_name);
            assert(stage_tokens(pv.take(i + 1), stage@) == before.push(*pairs@[i as int].0));
        }
        assert(edits_view(out@) =~= start + token_edits(source@, stage_tokens(pv.take(i + 1), stage@), new_name@));
        i = i + 1;
    }
    assert(pv.take(pv.len() as int) =~= pv);
}

/// An edit for each of `pairs` whose job identifier is `job` of `stage`.
fn push_job_token_edits(
    pairs: &Vec<(&Token, Option<&Token>)>,
    stage: &str,
    job: &str,
    source: &str,
    new_name: &str,
    out: &mut Vec<TextEdit>,
)
    ensures
        edits_view(final(out)@) == edits_view(old(out)@) + token_edits(
            source@,
            job_tokens(pairs_view(pairs@), stage@, job@),
            new_name@,
        ),
{
    let ghost start = edits_view(out@);
    let ghost pv = pairs_view(pairs@);
    let mut i: usize = 0;
    while i < pairs.len()
        invariant
            0 <= i <= pairs@.len(),
            pv == pairs_view(pairs@),
            edits_view(out@) == start + token_edits(source@, job_tokens(pv.take(i as int), stage@, job@), new_name@),
        decreases pairs@.len() - i,
    {
        assert(pv.take(i + 1).drop_last() =~= pv.take(i as int));
        let ghost before = job_tokens(pv.take(i as int), stage@, job@);
        if str_eq(pairs[i].0.text.as_str(), stage) {
            match pairs[i].1 {
                Some(second) => {
                    if str_eq(second.text.as_str(), job) {
                        push_edit(out, source, token_range(second), new_name);
                        assert(job_tokens(pv.take(i + 1), stage@, job@) == before.push(*second));
                    }
                },
                None => {},
            }
        }
        assert(edits_view(out@) =~= start + token_edits(source@, job_tokens(pv.take(i + 1), stage@, job@), new_name@));
        i = i + 1;
    }
    assert(pv.take(pv.len() as int) =~= pv);
}

// ─── the edits ───────────────────────────────────────────────────────────────

/// The stage names of the references of `refs` to templates of stage `stage`
/// of this file.
pub open spec fn stage_ref_ranges(refs: Seq<RefView>, stage: Seq<char>) -> Seq<TextRange>
    decreases refs.len(),
{
    if refs.len() == 0 {
        Seq::empty()
    } else {
        let r = refs.last();
        stage_ref_ranges(refs.drop_last(), stage) + if r.0.0 is None && r.0.1 == Some(stage) && r.2 is Some {
            seq![r.2.unwrap()]
        } else {
            Seq::empty()
        }
    }
}

/// The name ranges of those of `refs` that name `id`.
pub open spec fn name_ranges_to(refs: Seq<RefView>, id: (Option<Seq<char>>, Option<Seq<char>>, Seq<char>)) -> Seq<TextRange>
    decreases refs.len(),
{
    if refs.len() == 0 {
        Seq::empty()
    } else {
        name_ranges_to(refs.drop_last(), id) + if refs.last().0 == id {
            seq![refs.last().1]
        } else {
            Seq::empty()
        }
    }
}

pub open spec fn range_edits(source: Seq<char>, rs: Seq<TextRange>, new_name: Seq<char>) -> Seq<EditView> {
    rs.map_values(|r: TextRange| (spec_range(source, r), new_name))
}

/// The declaration of the template `id`, when it is in this file, and every
/// reference to it here.
pub open spec fn spec_edits_for_template(
    id: (Option<Seq<char>>, Option<Seq<char>>, Seq<char>),
    root: Node,
    source: Seq<char>,
    new_name: Seq<char>,
) -> Seq<EditView> {
    (match spec_find_def(id, root, source, Seq::empty()) {
        Some(d) => if d.0 is None {
            seq![(spec_range(source, d.2), new_name)]
        } else {
            Seq::empty()
        },
        None => Seq::empty(),
    }) + range_edits(source, name_ranges_to(spec_all_refs(root, local_path()), id), new_name)
}

fn edits_for_template(id: &TemplateId, root: &Root, source: &str, new_name: &str) -> (r: Vec<TextEdit>)
    ensures
        edits_view(r@) == spec_edits_for_template(id_view(*id), root.node(), source@, new_name@),
{
    let mut edits: Vec<TextEdit> = Vec::new();
    let no_files: Vec<SourceTree> = Vec::new();
    assert(edits_view(edits@) =~= Seq::empty());
    assert(no_files@ =~= Seq::<SourceTree>::empty());
    match find_def(id, root, source, &no_files) {
        Some(def) => {
            if def.path.is_none() {
                push_edit(&mut edits, source, def.name_range, new_name);
            }
        },
        None => {},
    }
    let ghost d0 = edits_view(edits@);
    proof {
        reveal_strlit(".");
    }
    let refs = all_refs(root, ".");
    let ghost rv = ref_views(refs@);
    let ghost iv = id_view(*id);
    let mut i: usize = 0;
    while i < refs.len()
        invariant
            0 <= i <= refs@.len(),
            rv == ref_views(refs@),
            iv == id_view(*id),
            edits_view(edits@) == d0 + range_edits(source@, name_ranges_to(rv.take(i as int), iv), new_name@),
        decreases refs@.len() - i,
    {
        assert(rv.take(i + 1).drop_last() =~= rv.take(i as int));
        if same_id(&refs[i].id, id) {
            push_edit(&mut edits, source, refs[i].name_range, new_name);
        }
        assert(edits_view(edits@) =~= d0 + range_edits(source@, name_ranges_to(rv.take(i + 1), iv), new_name@));
        i = i + 1;
    }
    assert(rv.take(rv.len() as int) =~= rv);
    edits
}

/// The stage name `t`, every dependency on the stage, and the stage part of
/// every `inherit` reference into it.
pub open spec fn spec_edits_rename_stage(t: Token, root: Node, source: Seq<char>, new_name: Seq<char>) -> Seq<EditView> {
    seq![(spec_range(source, spec_token_range(t)), new_name)] + token_edits(
        source,
        stage_tokens(spec_dep_pairs(root), t.text@),
        new_name,
    ) + range_edits(source, stage_ref_ranges(spec_all_refs(root, local_path()), t.text@), new_name)
}

fn edits_rename_stage(name_token: &Token, root: &Root, source: &str, new_name: &str) -> (r: Vec<TextEdit>)
    ensures
        edits_view(r@) == spec_edits_rename_stage(*name_token, root.node(), source@, new_name@),
{
    let old_name = name_token.text.as_str();
    let mut edits: Vec<TextEdit> = Vec::new();
    assert(edits_view(edits@) =~= Seq::empty());
    push_edit(&mut edits, source, token_range(name_token), new_name);
    let pairs = all_dep_ref_pairs(root);
    push_stage_token_edits(&pairs, old_name, source, new_name, &mut edits);
    let ghost d0 = edits_view(edits@);
    // `inherit = <stage>.template` references name the stage too.
    proof {
        reveal_strlit(".");
    }
    let refs = all_refs(root, ".");
    let ghost rv = ref_views(refs@);
    let mut i: usize = 0;
    while i < refs.len()
        invariant
            0 <= i <= refs@.len(),
            rv == ref_views(refs@),
            edits_view(edits@) == d0 + range_edits(source@, stage_ref_ranges(rv.take(i as int), old_name@), new_name@),
        decreases refs@.len() - i,
    {
        assert(rv.take(i + 1).drop_last() =~= rv.take(i as int));
        let r = &refs[i];
        let here = match &r.id.file {
            TemplateFile::Current => match &r.id.stage {
                Some(s) => str_eq(s.as_str(), old_name),
                None => false,
            },
            TemplateFile::Imported(_) => false,
        };
        if here {
            match r.stage_range {
                Some(range) => push_edit(&mut edits, source, range, new_name),
                None => {},
            }
        }
        assert(edits_view(edits@) =~= d0 + range_edits(source@, stage_ref_ranges(rv.take(i + 1), old_name@), new_name@));
        i = i + 1;
    }
    assert(rv.take(rv.len() as int) =~= rv);
    assert(edits_view(edits@) =~= spec_edits_rename_stage(*name_token, root.node(), source@, new_name@));
    edits
}

/// The job name `t` of a job of stage `stage` and every dependency on it.
pub open spec fn spec_edits_rename_job(
    t: Token,
    stage: Seq<char>,
    root: Node,
    source: Seq<char>,
    new_name: Seq<char>,
) -> Seq<EditView> {
    seq![(spec_range(source, spec_token_range(t)), new_name)] + token_edits(
        source,
        job_tokens(spec_dep_pairs(root), stage, t.text@),
        new_name,
    )
}

/// The declaration of the job or stage named at the identifier `t` of the
/// dependency `r`, and every dependency on it.
pub open spec fn spec_edits_rename_dep_ref(t: Token, r: Node, root: Node, source: Seq<char>, new_name: Seq<char>) -> Option<
    Seq<EditView>,
> {
    let ids = ref_idents(r);
    if ids.len() == 0 {
        None
    } else if ids.len() >= 2 && spec_token_range(ids[1]) == spec_token_range(t) {
        match spec_find_job(root, ids[0].text@, t.text@) {
            Some(job) => Some(
                token_edits(source, opt_seq(spec_name_token(job)), new_name) + token_edits(
                    source,
                    job_tokens(spec_dep_pairs(root), ids[0].text@, t.text@),
                    new_name,
                ),
            ),
            None => None,
        }
    } else {
        match first_named(stages_of(root), ids[0].text@) {
            Some(st) => Some(
                token_edits(source, opt_seq(spec_name_token(st)), new_name) + token_edits(
                    source,
                    stage_tokens(spec_dep_pairs(root), ids[0].text@),
                    new_name,
                ),
            ),
            None => None,
        }
    }
}

fn push_token_edit(out: &mut Vec<TextEdit>, source: &str, t: Option<&Token>, new_name: &str)
    ensures
        edits_view(final(out)@) == edits_view(old(out)@) + token_edits(
            source@,
            match t {
                Some(x) => seq![*x],
                None => Seq::empty(),
            },
            new_name@,
        ),
{
    let ghost before = edits_view(out@);
    match t {
        Some(x) => {
            push_edit(out, source, token_range(x), new_name);
            assert(edits_view(out@) =~= before + token_edits(source@, seq![*x], new_name@));
        },
        None => {
            assert(edits_view(out@) =~= before + token_edits(source@, Seq::empty(), new_name@));
        },
    }
}

fn edits_rename_dep_ref(token: &Token, ref_node: &Node, root: &Root, source: &str, new_name: &str) -> (r: Option<
    Vec<TextEdit>,
>)
    ensures
        opt_edits(r) == spec_edits_rename_dep_ref(*token, *ref_node, root.node(), source@, new_name@),
{
    let ids = ref_ident_tokens(ref_node);
    if ids.len() == 0 {
        return None;
    }
    let first = ids[0];
    let mut edits: Vec<TextEdit> = Vec::new();
    assert(edits_view(edits@) =~= Seq::empty());
    let pairs = all_dep_ref_pairs(root);
    // If the cursor is on the second identifier, the job is renamed.
    if ids.len() >= 2 && token_range(ids[1]) == token_range(token) {
        let job = match find_job(root, first.text.as_str(), token.text.as_str()) {
            Some(j) => j,
            None => return None,
        };
        push_token_edit(&mut edits, source, name_token(job), new_name);
        push_job_token_edits(&pairs, first.text.as_str(), token.text.as_str(), source, new_name, &mut edits);
        return Some(edits);
    }
    // The cursor is on the stage (first) identifier: the stage is renamed.
    let stages = root.body_items(SyntaxKind::Stage);
    proof {
        lemma_root_items(root, stages@, SyntaxKind::Stage);
    }
    let stage_decl = match find_named(&stages, first.text.as_str()) {
        Some(s) => s,
        None => return None,
    };
    push_token_edit(&mut edits, source, name_token(stage_decl), new_name);
    push_stage_token_edits(&pairs, first.text.as_str(), source, new_name, &mut edits);
    Some(edits)
}

/// All the edits that rename what the token `t`, with ancestors `p`, names
/// to `new_name`.
pub open spec fn spec_collect_edits(root: Node, p: Seq<&Node>, t: Token, source: Seq<char>, new_name: Seq<char>) -> Option<
    Seq<EditView>,
> {
    if t.kind == SyntaxKind::Ident && kind_up(p, 0) == Some(SyntaxKind::Name) {
        match up(p, 1) {
            Some(owner) => if owner.kind == SyntaxKind::Stage {
                Some(spec_edits_rename_stage(t, root, source, new_name))
            } else if owner.kind == SyntaxKind::Job {
                match stage_name_at(p, p.len() - 2) {
                    Some(sn) => Some(spec_edits_rename_job(t, sn, root, source, new_name)),
                    None => None,
                }
            } else if owner.kind == SyntaxKind::TemplateDef {
                match spec_def_at(p, t) {
                    Some(id) => Some(spec_edits_for_template(id, root, source, new_name)),
                    None => None,
                }
            } else {
                None
            },
            None => None,
        }
    } else if in_dependency_ref(p, t) {
        spec_edits_rename_dep_ref(t, up(p, 0).unwrap(), root, source, new_name)
    } else {
        match spec_ref_at(root, local_path(), p, t) {
            Some(rv) => if rv.0.0 is None {
                Some(spec_edits_for_template(rv.0, root, source, new_name))
            } else {
                None
            },
            None => None,
        }
    }
}

fn collect_edits(l: &Located, root: &Root, source: &str, new_name: &str) -> (r: Option<Vec<TextEdit>>)
    ensures
        opt_edits(r) == spec_collect_edits(root.node(), l.ancestors@, *l.token, source@, new_name@),
{
    let p = &l.ancestors;
    let token = l.token;
    if token.kind == SyntaxKind::Ident && kind_above(p, 0) == Some(SyntaxKind::Name) {
        if p.len() < 2 {
            return None;
        }
        let owner = p[p.len() - 2];
        if owner.kind == SyntaxKind::Stage {
            return Some(edits_rename_stage(token, root, source, new_name));
        }
        if owner.kind == SyntaxKind::Job {
            let stage_name = match enclosing_stage_name(p, p.len() - 2) {
                Some(n) => n,
                None => return None,
            };
            let mut edits: Vec<TextEdit> = Vec::new();
            assert(edits_view(edits@) =~= Seq::empty());
            push_edit(&mut edits, source, token_range(token), new_name);
            let pairs = all_dep_ref_pairs(root);
            push_job_token_edits(&pairs, stage_name.as_str(), token.text.as_str(), source, new_name, &mut edits);
            return Some(edits);
        }
        if owner.kind == SyntaxKind::TemplateDef {
            return match def_at(l) {
                Some(id) => Some(edits_for_template(&id, root, source, new_name)),
                None => None,
            };
        }
        return None;
    }
    if is_dependency_ident(l) {
        return edits_rename_dep_ref(token, p[p.len() - 1], root, source, new_name);
    }
    proof {
        reveal_strlit(".");
    }
    let id = match ref_at(l, root, ".") {
        Some(r) => r.id,
        None => return None,
    };
    match id.file {
        TemplateFile::Current => Some(edits_for_template(&id, root, source, new_name)),
        TemplateFile::Imported(_) => None,
    }
}

/// The edits that rename what the located token names, if it can be renamed.
pub fn edits_at(l: &Located, root: &Root, source: &str, new_name: &str) -> (r: Option<Vec<TextEdit>>)
    ensures
        opt_edits(r) == match spec_rename_range(root.node(), l.ancestors@, *l.token) {
            Some(_) => spec_collect_edits(root.node(), l.ancestors@, *l.token, source@, new_name@),
            None => None,
        },
{
    if rename_range(l, root).is_none() {
        return None;
    }
    collect_edits(l, root, source, new_name)
}

/// All the text edits that rename the symbol at `offset` to `new_name`.
pub fn edits_for(parse: &Parse, source: &str, offset: usize, new_name: &str) -> (r: Option<Vec<TextEdit>>)
    ensures
        match root_token_at(parse.tree(), offset as int) {
            None => r is None,
            Some(lt) => exists|p: Seq<&Node>| #[trigger] anc_nodes(p) == lt.0 && opt_edits(r) == match spec_rename_range(parse.tree(), p, lt.1) {
                Some(_) => spec_collect_edits(parse.tree(), p, lt.1, source@, new_name@),
                None => None,
            },
        },
{
    let l = match token_at(parse.syntax(), offset) {
        Some(l) => l,
        None => return None,
    };
    let root = match Root::cast(parse.syntax()) {
        Some(r) => r,
        None => return None,
    };
    assert(anc_nodes(l.ancestors@) == root_token_at(parse.tree(), offset as int).unwrap().0);
    edits_at(&l, &root, source, new_name)
}

} // verus!

//! Find references: every place that names the job, template or import at
//! a position.
use vstd::prelude::*;

use crate::ast::{AstNode, Root, name_token, spec_attr_value, spec_key_text, spec_name_token};
use crate::cst::{Node, Token, spec_child_node, spec_child_nodes};
use crate::lsp::definition::{Location, find_job, in_dependency_ref, is_dependency_ident, loc_view, spec_find_job};
use crate::lsp::templates::{
    IdView, RefView, SourceTree, TemplateFile, TemplateId, all_refs, def_at, derefs, find_def, id_view, key_is, opt_id,
    lemma_child_nodes, lemma_root_items, normalize_eq, opt_seq, ref_at, ref_ident_tokens, ref_idents, ref_views,
    same_id, spec_all_refs, spec_def_at, spec_find_def, spec_ref_at, stages_of,
};
use crate::lsp::{
    Located, anc_nodes, root_token_at, spec_token_at, Range, concat_map, kind_above, kind_up, lemma_concat_map_step, lemma_concat_map_whole, located_ok,
    range_to_lsp, spec_range, spec_token_range, stage_name_at, enclosing_stage_name, tok_end, token_at, token_range, up,
};
use crate::parser::Parse;
use crate::syntax::SyntaxKind;
use crate::text::str_eq;
use crate::validation::spec_attrs;

verus! {

pub type LocView = (Seq<char>, Range);

pub open spec fn locs_view(v: Seq<Location>) -> Seq<LocView> {
    v.map_values(|l: Location| loc_view(l))
}

pub open spec fn token_loc(file_path: Seq<char>, source: Seq<char>, t: Token) -> LocView {
    (file_path, spec_range(source, spec_token_range(t)))
}

pub open spec fn token_locs(file_path: Seq<char>, source: Seq<char>, ts: Seq<Token>) -> Seq<LocView> {
    ts.map_values(|t: Token| token_loc(file_path, source, t))
}

fn push_loc(out: &mut Vec<Location>, path: String, range: Range)
    ensures
        locs_view(final(out)@) == locs_view(old(out)@).push((path@, range)),
{
    let ghost before = locs_view(out@);
    let ghost p = path@;
    out.push(Location { path, range });
    assert(locs_view(out@) =~= before.push((p, range)));
}

// ─── dependency references ───────────────────────────────────────────────────

/// The job identifier of the item `r` of a `dependencies` list, if it is
/// `stage.job`.
pub open spec fn matching_ref(r: Node, stage: Seq<char>, job: Seq<char>) -> Seq<Token> {
    let ids = ref_idents(r);
    if ids.len() >= 2 && ids[0].text@ == stage && ids[1].text@ == job {
        seq![ids[1]]
    } else {
        Seq::empty()
    }
}

pub open spec fn matching_ref_f(stage: Seq<char>, job: Seq<char>) -> spec_fn(Node) -> Seq<Token> {
    |r: Node| matching_ref(r, stage, job)
}

pub open spec fn matching_attr(a: Node, stage: Seq<char>, job: Seq<char>) -> Seq<Token> {
    if spec_key_text(a) == Some("dependencies"@) {
        match spec_attr_value(a) {
            Some(v) => match spec_child_node(v, SyntaxKind::RefList) {
                Some(rl) => concat_map(spec_child_nodes(rl.children@, SyntaxKind::Ref), matching_ref_f(stage, job)),
                None => Seq::empty(),
            },
            None => Seq::empty(),
        }
    } else {
        Seq::empty()
    }
}

pub open spec fn matching_attr_f(stage: Seq<char>, job: Seq<char>) -> spec_fn(Node) -> Seq<Token> {
    |a: Node| matching_attr(a, stage, job)
}

pub open spec fn owner_matches_f(stage: Seq<char>, job: Seq<char>) -> spec_fn(Node) -> Seq<Token> {
    |n: Node| concat_map(spec_attrs(n), matching_attr_f(stage, job))
}

pub open spec fn stage_matches_f(stage: Seq<char>, job: Seq<char>) -> spec_fn(Node) -> Seq<Token> {
    |s: Node| concat_map(spec_attrs(s), matching_attr_f(stage, job)) + match spec_child_node(s, SyntaxKind::StageBody) {
        Some(b) => concat_map(spec_child_nodes(b.children@, SyntaxKind::Job), owner_matches_f(stage, job)),
        None => Seq::empty(),
    }
}

/// The job identifiers of the `stage.job` dependencies of the stages and
/// their jobs.
pub open spec fn spec_dep_ref_job_tokens(root: Node, stage: Seq<char>, job: Seq<char>) -> Seq<Token> {
    concat_map(stages_of(root), stage_matches_f(stage, job))
}

// ─── what a dependency reference names ───────────────────────────────────────

/// The `Ref` items of the `dependencies` list of the attribute `a`.
pub open spec fn attr_dep_refs(a: Node) -> Seq<Node> {
    if spec_key_text(a) == Some("dependencies"@) {
        match spec_attr_value(a) {
            Some(v) => match spec_child_node(v, SyntaxKind::RefList) {
                Some(rl) => spec_child_nodes(rl.children@, SyntaxKind::Ref),
                None => Seq::empty(),
            },
            None => Seq::empty(),
        }
    } else {
        Seq::empty()
    }
}

pub open spec fn attr_dep_refs_f() -> spec_fn(Node) -> Seq<Node> {
    |a: Node| attr_dep_refs(a)
}

pub open spec fn owner_dep_refs_f() -> spec_fn(Node) -> Seq<Node> {
    |n: Node| concat_map(spec_attrs(n), attr_dep_refs_f())
}

pub open spec fn stage_dep_refs_f() -> spec_fn(Node) -> Seq<Node> {
    |st: Node| concat_map(spec_attrs(st), attr_dep_refs_f()) + match spec_child_node(st, SyntaxKind::StageBody) {
        Some(b) => concat_map(spec_child_nodes(b.children@, SyntaxKind::Job), owner_dep_refs_f()),
        None => Seq::empty(),
    }
}

/// Every item of a `dependencies` list of a stage of the file or of one of
/// its jobs.
pub open spec fn dep_refs(root: Node) -> Seq<Node> {
    concat_map(stages_of(root), stage_dep_refs_f())
}

/// The dependency item `r` is written `stage.job`, and `t` is its `job` part.
pub open spec fn names_dependency(r: Node, stage: Seq<char>, job: Seq<char>, t: Token) -> bool {
    &&& ref_idents(r).len() >= 2
    &&& ref_idents(r)[0].text@ == stage
    &&& ref_idents(r)[1].text@ == job
    &&& ref_idents(r)[1] == t
}

pub open spec fn names_dependency_f(stage: Seq<char>, job: Seq<char>) -> spec_fn(Token, Node) -> bool {
    |t: Token, r: Node| names_dependency(r, stage, job, t)
}

/// Some entry of `cs` is related to `b` by `rel`.
pub open spec fn covered<B, C>(b: B, cs: Seq<C>, rel: spec_fn(B, C) -> bool) -> bool {
    exists|k: int| 0 <= k < cs.len() && #[trigger] rel(b, cs[k])
}

proof fn lemma_covered_concat<B, C>(b: B, c1: Seq<C>, c2: Seq<C>, rel: spec_fn(B, C) -> bool)
    ensures
        covered(b, c1, rel) ==> covered(b, c1 + c2, rel),
        covered(b, c2, rel) ==> covered(b, c1 + c2, rel),
{
    if covered(b, c1, rel) {
        let k = choose|k: int| 0 <= k < c1.len() && #[trigger] rel(b, c1[k]);
        assert((c1 + c2)[k] == c1[k]);
        assert(rel(b, (c1 + c2)[k]));
    }
    if covered(b, c2, rel) {
        let k = choose|k: int| 0 <= k < c2.len() && #[trigger] rel(b, c2[k]);
        assert((c1 + c2)[c1.len() + k] == c2[k]);
        assert(rel(b, (c1 + c2)[c1.len() + k]));
    }
}

proof fn lemma_concat_covered<A, B, C>(s: Seq<A>, f: spec_fn(A) -> Seq<B>, g: spec_fn(A) -> Seq<C>, rel: spec_fn(B, C) -> bool)
    requires
        forall|i: int, j: int| 0 <= i < s.len() && 0 <= j < f(s[i]).len() ==> covered(#[trigger] f(s[i])[j], g(s[i]), rel),
    ensures
        forall|j: int| 0 <= j < concat_map(s, f).len() ==> covered(#[trigger] concat_map(s, f)[j], concat_map(s, g), rel),
    decreases s.len(),
{
    if s.len() > 0 {
        let s0 = s.drop_last();
        let l = s.last();
        assert forall|i: int, j: int| 0 <= i < s0.len() && 0 <= j < f(s0[i]).len() implies covered(
            #[trigger] f(s0[i])[j],
            g(s0[i]),
            rel,
        ) by {
            assert(s0[i] == s[i]);
        }
        lemma_concat_covered(s0, f, g, rel);
        let cf = concat_map(s0, f);
        let cg = concat_map(s0, g);
        assert(concat_map(s, f) == cf + f(l));
        assert(concat_map(s, g) == cg + g(l));
        assert forall|j: int| 0 <= j < concat_map(s, f).len() implies covered(#[trigger] concat_map(s, f)[j], concat_map(s, g), rel) by {
            if j < cf.len() {
                assert(concat_map(s, f)[j] == cf[j]);
                lemma_covered_concat(cf[j], cg, g(l), rel);
            } else {
                let jj = j - cf.len();
                assert(concat_map(s, f)[j] == f(l)[jj]);
                assert(l == s[s.len() - 1]);
                assert(covered(f(s[s.len() - 1])[jj], g(s[s.len() - 1]), rel));
                lemma_covered_concat(f(l)[jj], cg, g(l), rel);
            }
        }
    }
}

proof fn lemma_concat_covered_leaf<A, B>(s: Seq<A>, f: spec_fn(A) -> Seq<B>, rel: spec_fn(B, A) -> bool)
    requires
        forall|i: int, j: int| 0 <= i < s.len() && 0 <= j < f(s[i]).len() ==> #[trigger] rel(f(s[i])[j], s[i]),
    ensures
        forall|j: int| 0 <= j < concat_map(s, f).len() ==> covered(#[trigger] concat_map(s, f)[j], s, rel),
    decreases s.len(),
{
    if s.len() > 0 {
        let s0 = s.drop_last();
        let l = s.last();
        assert forall|i: int, j: int| 0 <= i < s0.len() && 0 <= j < f(s0[i]).len() implies #[trigger] rel(
            f(s0[i])[j],
            s0[i],
        ) by {
            assert(s0[i] == s[i]);
        }
        lemma_concat_covered_leaf(s0, f, rel);
        let cf = concat_map(s0, f);
        assert(concat_map(s, f) == cf + f(l));
        assert(s =~= s0 + seq![l]);
        assert forall|j: int| 0 <= j < concat_map(s, f).len() implies covered(#[trigger] concat_map(s, f)[j], s, rel) by {
            if j < cf.len() {
                assert(concat_map(s, f)[j] == cf[j]);
                lemma_covered_concat(cf[j], s0, seq![l], rel);
            } else {
                let jj = j - cf.len();
                assert(concat_map(s, f)[j] == f(l)[jj]);
                assert(l == s[s.len() - 1]);
                assert(rel(f(s[s.len() - 1])[jj], s[s.len() - 1]));
                assert(rel(concat_map(s, f)[j], s[s.len() - 1]));
            }
        }
    }
}

proof fn lemma_attr_matches(a: Node, stage: Seq<char>, job: Seq<char>)
    ensures
        forall|j: int| 0 <= j < matching_attr(a, stage, job).len() ==> covered(
            #[trigger] matching_attr(a, stage, job)[j],
            attr_dep_refs(a),
            names_dependency_f(stage, job),
        ),
{
    let refs = attr_dep_refs(a);
    let f = matching_ref_f(stage, job);
    let rel = names_dependency_f(stage, job);
    assert forall|i: int, j: int| 0 <= i < refs.len() && 0 <= j < f(refs[i]).len() implies #[trigger] rel(
        f(refs[i])[j],
        refs[i],
    ) by {}
    lemma_concat_covered_leaf(refs, f, rel);
    if !(spec_key_text(a) == Some("dependencies"@) && spec_attr_value(a) is Some && spec_child_node(
        spec_attr_value(a).unwrap(),
        SyntaxKind::RefList,
    ) is Some) {
        assert(matching_attr(a, stage, job) =~= Seq::<Token>::empty());
    }
}

proof fn lemma_owner_matches(n: Node, stage: Seq<char>, job: Seq<char>)
    ensures
        forall|j: int| 0 <= j < owner_matches_f(stage, job)(n).len() ==> covered(
            #[trigger] owner_matches_f(stage, job)(n)[j],
            owner_dep_refs_f()(n),
            names_dependency_f(stage, job),
        ),
{
    let attrs = spec_attrs(n);
    assert forall|i: int, j: int| 0 <= i < attrs.len() && 0 <= j < matching_attr_f(stage, job)(attrs[i]).len() implies covered(
        #[trigger] matching_attr_f(stage, job)(attrs[i])[j],
        attr_dep_refs_f()(attrs[i]),
        names_dependency_f(stage, job),
    ) by {
        lemma_attr_matches(attrs[i], stage, job);
    }
    lemma_concat_covered(attrs, matching_attr_f(stage, job), attr_dep_refs_f(), names_dependency_f(stage, job));
}

proof fn lemma_stage_matches(st: Node, stage: Seq<char>, job: Seq<char>)
    ensures
        forall|j: int| 0 <= j < stage_matches_f(stage, job)(st).len() ==> covered(
            #[trigger] stage_matches_f(stage, job)(st)[j],
            stage_dep_refs_f()(st),
            names_dependency_f(stage, job),
        ),
{
    let rel = names_dependency_f(stage, job);
    lemma_owner_matches(st, stage, job);
    let x = owner_matches_f(stage, job)(st);
    let xr = owner_dep_refs_f()(st);
    let (y, yr) = match spec_child_node(st, SyntaxKind::StageBody) {
        Some(b) => {
            let jobs = spec_child_nodes(b.children@, SyntaxKind::Job);
            assert forall|i: int, j: int| 0 <= i < jobs.len() && 0 <= j < owner_matches_f(stage, job)(jobs[i]).len() implies covered(
                #[trigger] owner_matches_f(stage, job)(jobs[i])[j],
                owner_dep_refs_f()(jobs[i]),
                rel,
            ) by {
                lemma_owner_matches(jobs[i], stage, job);
            }
            lemma_concat_covered(jobs, owner_matches_f(stage, job), owner_dep_refs_f(), rel);
            (concat_map(jobs, owner_matches_f(stage, job)), concat_map(jobs, owner_dep_refs_f()))
        },
        None => (Seq::<Token>::empty(), Seq::<Node>::empty()),
    };
    assert(stage_matches_f(stage, job)(st) == x + y);
    assert(stage_dep_refs_f()(st) == xr + yr);
    assert forall|j: int| 0 <= j < stage_matches_f(stage, job)(st).len() implies covered(
        #[trigger] stage_matches_f(stage, job)(st)[j],
        stage_dep_refs_f()(st),
        rel,
    ) by {
        if j < x.len() {
            assert((x + y)[j] == x[j]);
            lemma_covered_concat(x[j], xr, yr, rel);
        } else {
            assert((x + y)[j] == y[j - x.len()]);
            lemma_covered_concat(y[j - x.len()], xr, yr, rel);
        }
    }
}

/// Every job identifier that references to the job `job` of the stage
/// `stage` are found at is the `job` part of a dependency item written
/// `stage.job`, among the `dependencies` lists of the file's stages and jobs:
/// a dependency on a job of the same name in another stage is not one.
pub proof fn lemma_dependency_references_name_the_stage(root: Node, stage: Seq<char>, job: Seq<char>)
    ensures
        forall|i: int| 0 <= i < spec_dep_ref_job_tokens(root, stage, job).len() ==> covered(
            #[trigger] spec_dep_ref_job_tokens(root, stage, job)[i],
            dep_refs(root),
            names_dependency_f(stage, job),
        ),
{
    let stages = stages_of(root);
    assert forall|i: int, j: int| 0 <= i < stages.len() && 0 <= j < stage_matches_f(stage, job)(stages[i]).len() implies covered(
        #[trigger] stage_matches_f(stage, job)(stages[i])[j],
        stage_dep_refs_f()(stages[i]),
        names_dependency_f(stage, job),
    ) by {
        lemma_stage_matches(stages[i], stage, job);
    }
    lemma_concat_covered(stages, stage_matches_f(stage, job), stage_dep_refs_f(), names_dependency_f(stage, job));
}

pub open spec fn tokens_view(v: Seq<&Token>) -> Seq<Token> {
    v.map_values(|t: &Token| *t)
}

fn push_token<'a>(out: &mut Vec<&'a Token>, t: &'a Token)
    ensures
        tokens_view(final(out)@) == tokens_view(old(out)@).push(*t),
{
    let ghost before = tokens_view(out@);
    out.push(t);
    assert(tokens_view(out@) =~= before.push(*t));
}

fn collect_matching_dep_tokens<'a>(owner: &'a Node, stage: &str, job: &str, tokens: &mut Vec<&'a Token>)
    ensures
        tokens_view(final(tokens)@) == tokens_view(old(tokens)@) + concat_map(spec_attrs(*owner), matching_attr_f(stage@, job@)),
{
    let ghost start = tokens_view(tokens@);
    let ghost f = matching_attr_f(stage@, job@);
    let al = match owner.child_node(SyntaxKind::AttrList) {
        Some(al) => al,
        None => {
            assert(tokens_view(tokens@) =~= start + concat_map(spec_attrs(*owner), f));
            return ;
        },
    };
    let attrs = al.child_nodes(SyntaxKind::Attr);
    proof {
        lemma_child_nodes(*al, attrs@, SyntaxKind::Attr);
    }
    let ghost sa = derefs(attrs@);
    assert(sa == spec_attrs(*owner));
    let mut i: usize = 0;
    while i < attrs.len()
        invariant
            0 <= i <= attrs@.len(),
            sa == derefs(attrs@),
            f == matching_attr_f(stage@, job@),
            tokens_view(tokens@) == start + concat_map(sa.take(i as int), f),
        decreases attrs@.len() - i,
    {
        let ghost before = tokens_view(tokens@);
        let attr = attrs[i];
        assert(sa[i as int] == *attr);
        if key_is(attr, "dependencies") {
            match attr.child_node(SyntaxKind::AttrValue) {
                Some(av) => match av.child_node(SyntaxKind::RefList) {
                    Some(rl) => {
                        let refs = rl.child_nodes(SyntaxKind::Ref);
                        proof {
                            lemma_child_nodes(*rl, refs@, SyntaxKind::Ref);
                        }
                        let ghost sr = derefs(refs@);
                        let ghost g = matching_ref_f(stage@, job@);
                        let mut k: usize = 0;
                        while k < refs.len()
                            invariant
                                0 <= k <= refs@.len(),
                                sr == derefs(refs@),
                                g == matching_ref_f(stage@, job@),
                                tokens_view(tokens@) == before + concat_map(sr.take(k as int), g),
                            decreases refs@.len() - k,
                        {
                            let ghost b2 = tokens_view(tokens@);
                            assert(sr[k as int] == *refs@[k as int]);
                            let ids = ref_ident_tokens(refs[k]);
                            if ids.len() >= 2 && str_eq(ids[0].text.as_str(), stage) && str_eq(
                                ids[1].text.as_str(),
                                job,
                            ) {
                                push_token(tokens, ids[1]);
                                assert(tokens_view(tokens@) =~= b2 + g(sr[k as int]));
                            } else {
                                assert(tokens_view(tokens@) =~= b2 + g(sr[k as int]));
                            }
                            proof {
                                lemma_concat_map_step(sr, g, k as int);
                                assert(tokens_view(tokens@) =~= before + concat_map(sr.take(k + 1), g));
                            }
                            k = k + 1;
                        }
                        proof {
                            lemma_concat_map_whole(sr, g);
                        }
                    },
                    None => {
                        assert(tokens_view(tokens@) =~= before + f(sa[i as int]));
                    },
                },
                None => {
                    assert(tokens_view(tokens@) =~= before + f(sa[i as int]));
                },
            }
        } else {
            assert(tokens_view(tokens@) =~= before + f(sa[i as int]));
        }
        proof {
            lemma_concat_map_step(sa, f, i as int);
            assert(tokens_view(tokens@) =~= start + concat_map(sa.take(i + 1), f));
        }
        i = i + 1;
    }
    proof {
        lemma_concat_map_whole(sa, f);
    }
}

/// The job identifiers of the `stage.job` dependencies of the file that
/// name `job` of `stage`.
pub fn dep_ref_job_tokens<'a>(root: &Root<'a>, stage: &str, job: &str) -> (r: Vec<&'a Token>)
    ensures
        tokens_view(r@) == spec_dep_ref_job_tokens(root.node(), stage@, job@),
{
    let mut tokens: Vec<&'a Token> = Vec::new();
    let stages = root.body_items(SyntaxKind::Stage);
    proof {
        lemma_root_items(root, stages@, SyntaxKind::Stage);
    }
    let ghost ss = derefs(stages@);
    let ghost f = stage_matches_f(stage@, job@);
    let mut i: usize = 0;
    assert(tokens_view(tokens@) =~= Seq::empty());
    while i < stages.len()
        invariant
            0 <= i <= stages@.len(),
            ss == derefs(stages@),
            ss == stages_of(root.node()),
            f == stage_matches_f(stage@, job@),
            tokens_view(tokens@) == concat_map(ss.take(i as int), f),
        decreases stages@.len() - i,
    {
        let ghost before = tokens_view(tokens@);
        let st = stages[i];
        assert(ss[i as int] == *st);
        collect_matching_dep_tokens(st, stage, job, &mut tokens);
        let ghost mid = tokens_view(tokens@);
        match st.child_node(SyntaxKind::StageBody) {
            Some(body) => {
                let jobs = body.child_nodes(SyntaxKind::Job);
                proof {
                    lemma_child_nodes(*body, jobs@, SyntaxKind::Job);
                }
                let ghost sj = derefs(jobs@);
                let ghost g = owner_matches_f(stage@, job@);
                let mut j: usize = 0;
                while j < jobs.len()
                    invariant
                        0 <= j <= jobs@.len(),
                        sj == derefs(jobs@),
                        g == owner_matches_f(stage@, job@),
                        tokens_view(tokens@) == mid + concat_map(sj.take(j as int), g),
                    decreases jobs@.len() - j,
                {
                    assert(sj[j as int] == *jobs@[j as int]);
                    collect_matching_dep_tokens(jobs[j], stage, job, &mut tokens);
                    proof {
                        lemma_concat_map_step(sj, g, j as int);
                        assert(tokens_view(tokens@) =~= mid + concat_map(sj.take(j + 1), g));
                    }
                    j = j + 1;
                }
                proof {
                    lemma_concat_map_whole(sj, g);
                }
            },
            None => {},
        }
        proof {
            assert(tokens_view(tokens@) =~= before + f(ss[i as int]));
            lemma_concat_map_step(ss, f, i as int);
            assert(tokens_view(tokens@) =~= concat_map(ss.take(i + 1), f));
        }
        i = i + 1;
    }
    proof {
        lemma_concat_map_whole(ss, f);
    }
    tokens
}

/// The declaration `decl`, if any, then every dependency naming `job` of `stage`.
pub open spec fn spec_job_refs(
    root: Node,
    stage: Seq<char>,
    job: Seq<char>,
    decl: Option<Token>,
    source: Seq<char>,
    file_path: Seq<char>,
) -> Seq<LocView> {
    token_locs(file_path, source, opt_seq(decl) + spec_dep_ref_job_tokens(root, stage, job))
}

fn job_refs(
    root: &Root,
    stage: &str,
    job: &str,
    decl: Option<&Token>,
    source: &str,
    file_path: &str,
) -> (r: Vec<Location>)
    ensures
        locs_view(r@) == spec_job_refs(
            root.node(),
            stage@,
            job@,
            match decl {
                Some(t) => Some(*t),
                None => None,
            },
            source@,
            file_path@,
        ),
{
    let mut locs: Vec<Location> = Vec::new();
    let ghost d: Seq<Token> = match decl {
        Some(t) => seq![*t],
        None => Seq::empty(),
    };
    match decl {
        Some(t) => {
            push_loc(&mut locs, file_path.to_string(), range_to_lsp(source, token_range(t)));
        },
        None => {},
    }
    assert(locs_view(locs@) =~= token_locs(file_path@, source@, d));
    let toks = dep_ref_job_tokens(root, stage, job);
    let ghost tv = tokens_view(toks@);
    let mut i: usize = 0;
    while i < toks.len()
        invariant
            0 <= i <= toks@.len(),
            tv == tokens_view(toks@),
            locs_view(locs@) == token_locs(file_path@, source@, d + tv.take(i as int)),
        decreases toks@.len() - i,
    {
        let ghost before = locs_view(locs@);
        push_loc(&mut locs, file_path.to_string(), range_to_lsp(source, token_range(toks[i])));
        assert(d + tv.take(i + 1) =~= (d + tv.take(i as int)).push(tv[i as int]));
        assert(locs_view(locs@) =~= token_locs(file_path@, source@, d + tv.take(i + 1)));
        i = i + 1;
    }
    assert(tv.take(tv.len() as int) =~= tv);
    locs
}

// ─── template references ─────────────────────────────────────────────────────

/// The locations of the names of those of `refs` that name `id`.
pub open spec fn refs_to(refs: Seq<RefView>, id: (Option<Seq<char>>, Option<Seq<char>>, Seq<char>), file_path: Seq<char>, source: Seq<char>) -> Seq<
    LocView,
>
    decreases refs.len(),
{
    if refs.len() == 0 {
        Seq::empty()
    } else {
        refs_to(refs.drop_last(), id, file_path, source) + if refs.last().0 == id {
            seq![(file_path, spec_range(source, refs.last().1))]
        } else {
            Seq::empty()
        }
    }
}

/// `loc` is the range of the name of one of `refs` whose id is `id`.
pub open spec fn ref_location(refs: Seq<RefView>, id: IdView, file_path: Seq<char>, source: Seq<char>, loc: LocView) -> bool {
    exists|k: int| 0 <= k < refs.len() && (#[trigger] refs[k]).0 == id && loc == (file_path, spec_range(source, refs[k].1))
}

/// `loc` is among `locs`.
pub open spec fn listed_loc(locs: Seq<LocView>, loc: LocView) -> bool {
    exists|i: int| 0 <= i < locs.len() && #[trigger] locs[i] == loc
}

/// The locations found for the template `id` among the references `refs`
/// are those of the references to `id`, and only those: each is the range of
/// the name of a reference whose id is `id`, and every such reference gives
/// one.
pub proof fn lemma_refs_to_are_the_references(refs: Seq<RefView>, id: IdView, file_path: Seq<char>, source: Seq<char>)
    ensures
        forall|i: int| 0 <= i < refs_to(refs, id, file_path, source).len()
            ==> ref_location(refs, id, file_path, source, #[trigger] refs_to(refs, id, file_path, source)[i]),
        forall|k: int| 0 <= k < refs.len() && (#[trigger] refs[k]).0 == id
            ==> listed_loc(refs_to(refs, id, file_path, source), (file_path, spec_range(source, refs[k].1))),
    decreases refs.len(),
{
    if refs.len() > 0 {
        let r0 = refs.drop_last();
        lemma_refs_to_are_the_references(r0, id, file_path, source);
        let a = refs_to(r0, id, file_path, source);
        let l = refs.last();
        let b: Seq<LocView> = if l.0 == id { seq![(file_path, spec_range(source, l.1))] } else { Seq::empty() };
        let all = refs_to(refs, id, file_path, source);
        assert(all == a + b);
        assert forall|i: int| 0 <= i < all.len() implies ref_location(refs, id, file_path, source, #[trigger] all[i]) by {
            if i < a.len() {
                assert(all[i] == a[i]);
                assert(ref_location(r0, id, file_path, source, a[i]));
                let k = choose|k: int| 0 <= k < r0.len() && (#[trigger] r0[k]).0 == id && a[i] == (file_path, spec_range(source, r0[k].1));
                assert(refs[k] == r0[k]);
            } else {
                assert(all[i] == b[0]);
                assert(refs[refs.len() - 1] == l);
            }
        }
        assert forall|k: int| 0 <= k < refs.len() && (#[trigger] refs[k]).0 == id implies listed_loc(
            all,
            (file_path, spec_range(source, refs[k].1)),
        ) by {
            if k < r0.len() {
                assert(refs[k] == r0[k]);
                assert(listed_loc(a, (file_path, spec_range(source, r0[k].1))));
                let i = choose|i: int| 0 <= i < a.len() && #[trigger] a[i] == (file_path, spec_range(source, r0[k].1));
                assert(all[i] == a[i]);
            } else {
                assert(refs[k] == l);
                assert(all[a.len() as int] == b[0]);
            }
        }
    }
}

/// The template declared or named at the token `t` with ancestors `p`.
pub open spec fn id_at(root: Node, file_path: Seq<char>, p: Seq<&Node>, t: Token) -> Option<
    (Option<Seq<char>>, Option<Seq<char>>, Seq<char>),
> {
    match spec_def_at(p, t) {
        Some(id) => Some(id),
        None => match spec_ref_at(root, file_path, p, t) {
            Some(rv) => Some(rv.0),
            None => None,
        },
    }
}

/// References to the template declared or named at a token, wherever in the
/// file they're written and however they're qualified: its declaration
/// first when asked for, then each reference.
pub open spec fn spec_template_locations(
    root: Node,
    source: Seq<char>,
    include_declaration: bool,
    file_path: Seq<char>,
    files: Seq<SourceTree>,
    p: Seq<&Node>,
    t: Token,
) -> Option<Seq<LocView>> {
    match id_at(root, file_path, p, t) {
        Some(id) => Some(
            (if include_declaration {
                match spec_find_def(id, root, source, files) {
                    Some(d) => seq![
                        (
                            match d.0 {
                                Some(path) => path,
                                None => file_path,
                            },
                            spec_range(d.1, d.2),
                        ),
                    ],
                    None => Seq::empty(),
                }
            } else {
                Seq::empty()
            }) + refs_to(spec_all_refs(root, file_path), id, file_path, source),
        ),
        None => None,
    }
}

fn template_locations(
    l: &Located,
    root: &Root,
    source: &str,
    include_declaration: bool,
    file_path: &str,
    files: &Vec<SourceTree>,
) -> (r: Option<Vec<Location>>)
    ensures
        match r {
            Some(v) => spec_template_locations(
                root.node(),
                source@,
                include_declaration,
                file_path@,
                files@,
                l.ancestors@,
                *l.token,
            ) == Some(locs_view(v@)),
            None => spec_template_locations(
                root.node(),
                source@,
                include_declaration,
                file_path@,
                files@,
                l.ancestors@,
                *l.token,
            ) is None,
        },
{
    let id = match def_at(l) {
        Some(id) => id,
        None => match ref_at(l, root, file_path) {
            Some(r) => r.id,
            None => return None,
        },
    };
    let ghost iv = id_view(id);
    let mut locations: Vec<Location> = Vec::new();
    assert(locs_view(locations@) =~= Seq::empty());
    if include_declaration {
        match find_def(&id, root, source, files) {
            Some(def) => {
                let path = match &def.path {
                    Some(p) => p.clone(),
                    None => file_path.to_string(),
                };
                push_loc(&mut locations, path, range_to_lsp(def.source.as_str(), def.name_range));
            },
            None => {},
        }
    }
    let ghost d0 = locs_view(locations@);
    let refs = all_refs(root, file_path);
    let ghost rv = ref_views(refs@);
    let mut i: usize = 0;
    while i < refs.len()
        invariant
            0 <= i <= refs@.len(),
            rv == ref_views(refs@),
            iv == id_view(id),
            locs_view(locations@) == d0 + refs_to(rv.take(i as int), iv, file_path@, source@),
        decreases refs@.len() - i,
    {
        let ghost before = locs_view(locations@);
        assert(rv.take(i + 1).drop_last() =~= rv.take(i as int));
        if same_id(&refs[i].id, &id) {
            push_loc(&mut locations, file_path.to_string(), range_to_lsp(source, refs[i].name_range));
        }
        assert(locs_view(locations@) =~= d0 + refs_to(rv.take(i + 1), iv, file_path@, source@));
        i = i + 1;
    }
    assert(rv.take(rv.len() as int) =~= rv);
    Some(locations)
}

/// The import ranges of those of `refs` that go through the import `name`.
pub open spec fn import_refs_of(refs: Seq<RefView>, name: Seq<char>, file_path: Seq<char>, source: Seq<char>) -> Seq<LocView>
    decreases refs.len(),
{
    if refs.len() == 0 {
        Seq::empty()
    } else {
        import_refs_of(refs.drop_last(), name, file_path, source) + if refs.last().3 == Some(name)
            && refs.last().4 is Some {
            seq![(file_path, spec_range(source, refs.last().4.unwrap()))]
        } else {
            Seq::empty()
        }
    }
}

/// The import named at `t` when asked for, then every `inherit` reference
/// that goes through it.
pub open spec fn spec_import_refs(root: Node, source: Seq<char>, include_declaration: bool, file_path: Seq<char>, t: Token) -> Seq<
    LocView,
> {
    (if include_declaration {
        seq![token_loc(file_path, source, t)]
    } else {
        Seq::empty()
    }) + import_refs_of(spec_all_refs(root, file_path), t.text@, file_path, source)
}

fn import_refs(token: &Token, root: &Root, source: &str, include_declaration: bool, file_path: &str) -> (r: Vec<
    Location,
>)
    ensures
        locs_view(r@) == spec_import_refs(root.node(), source@, include_declaration, file_path@, *token),
{
    let mut locations: Vec<Location> = Vec::new();
    assert(locs_view(locations@) =~= Seq::empty());
    if include_declaration {
        push_loc(&mut locations, file_path.to_string(), range_to_lsp(source, token_range(token)));
    }
    let ghost d0 = locs_view(locations@);
    let refs = all_refs(root, file_path);
    let ghost rv = ref_views(refs@);
    let mut i: usize = 0;
    while i < refs.len()
        invariant
            0 <= i <= refs@.len(),
            rv == ref_views(refs@),
            locs_view(locations@) == d0 + import_refs_of(rv.take(i as int), token.text@, file_path@, source@),
        decreases refs@.len() - i,
    {
        assert(rv.take(i + 1).drop_last() =~= rv.take(i as int));
        let through = match &refs[i].import {
            Some(name) => str_eq(name.as_str(), token.text.as_str()),
            None => false,
        };
        if through {
            match refs[i].import_range {
                Some(range) => {
                    push_loc(&mut locations, file_path.to_string(), range_to_lsp(source, range));
                },
                None => {},
            }
        }
        assert(locs_view(locations@) =~= d0 + import_refs_of(rv.take(i + 1), token.text@, file_path@, source@));
        i = i + 1;
    }
    assert(rv.take(rv.len() as int) =~= rv);
    locations
}

// ─── jobs and imports ────────────────────────────────────────────────────────

/// References to the job or import named at the identifier `t`, with
/// ancestors `p`: its declaration, or the job part of a dependency.
pub open spec fn spec_find_ident(
    root: Node,
    source: Seq<char>,
    include_declaration: bool,
    file_path: Seq<char>,
    p: Seq<&Node>,
    t: Token,
) -> Option<Seq<LocView>> {
    if t.kind != SyntaxKind::Ident {
        None
    } else if kind_up(p, 0) == Some(SyntaxKind::Name) {
        match up(p, 1) {
            Some(owner) => if owner.kind == SyntaxKind::Job {
                match stage_name_at(p, p.len() - 2) {
                    Some(sn) => Some(
                        spec_job_refs(
                            root,
                            sn,
                            t.text@,
                            if include_declaration {
                                Some(t)
                            } else {
                                None
                            },
                            source,
                            file_path,
                        ),
                    ),
                    None => None,
                }
            } else if owner.kind == SyntaxKind::UseDecl {
                Some(spec_import_refs(root, source, include_declaration, file_path, t))
            } else {
                None
            },
            None => None,
        }
    } else if in_dependency_ref(p, t) {
        let ids = ref_idents(up(p, 0).unwrap());
        if ids.len() < 2 || spec_token_range(ids[1]) != spec_token_range(t) {
            None
        } else {
            let decl = if include_declaration {
                match spec_find_job(root, ids[0].text@, t.text@) {
                    Some(j) => spec_name_token(j),
                    None => None,
                }
            } else {
                None
            };
            Some(spec_job_refs(root, ids[0].text@, t.text@, decl, source, file_path))
        }
    } else {
        None
    }
}

fn find_ident(
    l: &Located,
    root: &Root,
    source: &str,
    include_declaration: bool,
    file_path: &str,
) -> (r: Option<Vec<Location>>)
    ensures
        match r {
            Some(v) => spec_find_ident(root.node(), source@, include_declaration, file_path@, l.ancestors@, *l.token)
                == Some(locs_view(v@)),
            None => spec_find_ident(root.node(), source@, include_declaration, file_path@, l.ancestors@, *l.token) is None,
        },
{
    let token = l.token;
    let p = &l.ancestors;
    if token.kind != SyntaxKind::Ident {
        return None;
    }
    if kind_above(p, 0) == Some(SyntaxKind::Name) {
        if p.len() < 2 {
            return None;
        }
        let owner = p[p.len() - 2];
        if owner.kind == SyntaxKind::Job {
            let stage_name = match enclosing_stage_name(p, p.len() - 2) {
                Some(n) => n,
                None => return None,
            };
            let decl = if include_declaration {
                Some(token)
            } else {
                None
            };
            return Some(job_refs(root, stage_name.as_str(), token.text.as_str(), decl, source, file_path));
        }
        if owner.kind == SyntaxKind::UseDecl {
            return Some(import_refs(token, root, source, include_declaration, file_path));
        }
        return None;
    }
    if is_dependency_ident(l) {
        let ids = ref_ident_tokens(p[p.len() - 1]);
        if ids.len() < 2 || token_range(ids[1]) != token_range(token) {
            return None;
        }
        let first = ids[0];
        let decl = if include_declaration {
            match find_job(root, first.text.as_str(), token.text.as_str()) {
                Some(j) => name_token(j),
                None => None,
            }
        } else {
            None
        };
        return Some(job_refs(root, first.text.as_str(), token.text.as_str(), decl, source, file_path));
    }
    None
}

/// Every reference to what the token `t`, with ancestors `p`, names: a
/// template first, else a job or an import.
pub open spec fn spec_references(
    root: Node,
    source: Seq<char>,
    include_declaration: bool,
    file_path: Seq<char>,
    files: Seq<SourceTree>,
    p: Seq<&Node>,
    t: Token,
) -> Option<Seq<LocView>> {
    match spec_template_locations(root, source, include_declaration, file_path, files, p, t) {
        Some(v) => Some(v),
        None => spec_find_ident(root, source, include_declaration, file_path, p, t),
    }
}

/// Every reference to what the located token names.
pub fn references_for(
    l: &Located,
    root: &Root,
    source: &str,
    include_declaration: bool,
    file_path: &str,
    files: &Vec<SourceTree>,
) -> (r: Option<Vec<Location>>)
    ensures
        match r {
            Some(v) => spec_references(root.node(), source@, include_declaration, file_path@, files@, l.ancestors@, *l.token)
                == Some(locs_view(v@)),
            None => spec_references(
                root.node(),
                source@,
                include_declaration,
                file_path@,
                files@,
                l.ancestors@,
                *l.token,
            ) is None,
        },
{
    match template_locations(l, root, source, include_declaration, file_path, files) {
        Some(v) => Some(v),
        None => find_ident(l, root, source, include_declaration, file_path),
    }
}

/// Every reference location for the job, template or import at `offset`.
pub fn find(
    parse: &Parse,
    source: &str,
    offset: usize,
    include_declaration: bool,
    file_path: &str,
    files: &Vec<SourceTree>,
) -> (r: Option<Vec<Location>>)
    ensures
        match root_token_at(parse.tree(), offset as int) {
            None => r is None,
            Some(lt) => exists|p: Seq<&Node>| #[trigger] anc_nodes(p) == lt.0 && match r {
                Some(v) => spec_references(parse.tree(), source@, include_declaration, file_path@, files@, p, lt.1)
                    == Some(locs_view(v@)),
                None => spec_references(parse.tree(), source@, include_declaration, file_path@, files@, p, lt.1) is None,
            },
        },
{
    let root_node = parse.syntax();
    let l = match token_at(root_node, offset) {
        Some(l) => l,
        None => return None,
    };
    let root = match Root::cast(root_node) {
        Some(r) => r,
        None => return None,
    };
    assert(anc_nodes(l.ancestors@) == root_token_at(parse.tree(), offset as int).unwrap().0);
    references_for(&l, &root, source, include_declaration, file_path, files)
}

// ─── across documents ────────────────────────────────────────────────────────

/// The template whose name is at `offset` of a parsed document, if any.
pub fn template_def_at(parse: &Parse, offset: usize) -> (r: Option<TemplateId>)
    ensures
        match spec_token_at(parse.tree(), offset as int) {
            None => r is None,
            Some(lt) => exists|p: Seq<&Node>| #[trigger] anc_nodes(p) == lt.0 && opt_id(r) == spec_def_at(p, lt.1),
        },
{
    let l = match token_at(parse.syntax(), offset) {
        Some(l) => l,
        None => return None,
    };
    assert(anc_nodes(l.ancestors@) == spec_token_at(parse.tree(), offset as int).unwrap().0);
    def_at(&l)
}

/// The names of those of `refs` that go into the file `defined_in` and
/// name the template `target` there.
pub open spec fn cross_refs(refs: Seq<RefView>, target: (Option<Seq<char>>, Option<Seq<char>>, Seq<char>), defined_in: Seq<char>, file_path: Seq<char>, source: Seq<char>) -> Seq<
    LocView,
>
    decreases refs.len(),
{
    if refs.len() == 0 {
        Seq::empty()
    } else {
        let r = refs.last();
        cross_refs(refs.drop_last(), target, defined_in, file_path, source) + if r.0.0 is Some
            && crate::paths::spec_normalize(r.0.0.unwrap()) == crate::paths::spec_normalize(defined_in) && r.0.1
            == target.1 && r.0.2 == target.2 {
            seq![(file_path, spec_range(source, r.1))]
        } else {
            Seq::empty()
        }
    }
}

/// Every `inherit` reference of the document at `file_path` that resolves
/// to the template `target`, which is defined in the file `defined_in`.
pub fn cross_doc_template_refs(
    parse: &Parse,
    source: &str,
    file_path: &str,
    target: &TemplateId,
    defined_in: &str,
) -> (r: Vec<Location>)
    ensures
        parse.tree().kind == SyntaxKind::Root ==> locs_view(r@) == cross_refs(
            spec_all_refs(parse.tree(), file_path@),
            id_view(*target),
            defined_in@,
            file_path@,
            source@,
        ),
        parse.tree().kind != SyntaxKind::Root ==> r@.len() == 0,
{
    let mut out: Vec<Location> = Vec::new();
    let root = match Root::cast(parse.syntax()) {
        Some(r) => r,
        None => return out,
    };
    let refs = all_refs(&root, file_path);
    let ghost rv = ref_views(refs@);
    let ghost tv = id_view(*target);
    assert(locs_view(out@) =~= Seq::empty());
    let mut i: usize = 0;
    while i < refs.len()
        invariant
            0 <= i <= refs@.len(),
            rv == ref_views(refs@),
            tv == id_view(*target),
            locs_view(out@) == cross_refs(rv.take(i as int), tv, defined_in@, file_path@, source@),
        decreases refs@.len() - i,
    {
        assert(rv.take(i + 1).drop_last() =~= rv.take(i as int));
        let r = &refs[i];
        let hit = match &r.id.file {
            TemplateFile::Imported(path) => normalize_eq(path.as_str(), defined_in) && crate::lsp::templates::opt_eq(
                &r.id.stage,
                &target.stage,
            ) && str_eq(r.id.name.as_str(), target.name.as_str()),
            TemplateFile::Current => false,
        };
        if hit {
            push_loc(&mut out, file_path.to_string(), range_to_lsp(source, r.name_range));
        }
        assert(locs_view(out@) =~= cross_refs(rv.take(i + 1), tv, defined_in@, file_path@, source@));
        i = i + 1;
    }
    assert(rv.take(rv.len() as int) =~= rv);
    out
}

} // verus!

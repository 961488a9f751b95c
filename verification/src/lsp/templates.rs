//! Resolution of the template references written in `inherit` attributes.
//!
//! A reference is `[import/][stage.]name`, where `import` is the name of a
//! `use` import and `stage` is the stage the template is defined in. An
//! unqualified name is a template in the same stage, or failing that a
//! top-level one, which is how the workflow is built.
use vstd::prelude::*;

use crate::ast::{
    AstNode, Root, attr_scalar, name_of, name_token, seq_path, spec_attr_scalar, spec_attr_value, spec_key_text,
    spec_name, spec_name_token, spec_ref_text, spec_root_items,
};
use crate::cst::{Element, Node, Token, spec_child_node, spec_child_nodes, spec_child_token};
use crate::ir::strs_view;
use crate::lower::SourceFile;
use crate::lsp::{
    Located, TextRange, concat_map, enclosing_stage_name, kind_above, kind_up, lemma_concat_map_step, lemma_concat_map_whole, names_of,
    sat, spec_token_range, stage_name_at, token_range, up,
};
use crate::parser::{Parse, parse};
use crate::paths::{import_target, spec_import_target};
use crate::syntax::SyntaxKind;
use crate::text::{chars_of, find_char, find_char_in, str_eq, substring};
use crate::validation::spec_attrs;

verus! {

// ─── the files a document refers to ──────────────────────────────────────────

/// A file read and parsed: its path, its text and its tree.
pub struct SourceTree {
    pub path: String,
    pub source: String,
    pub parse: Parse,
}

/// The paths and texts of the readable ones of `sources`, in order.
pub open spec fn readable(sources: Seq<SourceFile>) -> Seq<(Seq<char>, Seq<char>)>
    decreases sources.len(),
{
    if sources.len() == 0 {
        Seq::empty()
    } else {
        readable(sources.drop_last()) + match sources.last().text {
            Some(t) => seq![(sources.last().path@, t@)],
            None => Seq::empty(),
        }
    }
}

pub open spec fn trees_view(v: Seq<SourceTree>) -> Seq<(Seq<char>, Seq<char>)> {
    v.map_values(|t: SourceTree| (t.path@, t.source@))
}

/// Each readable file among `sources`, parsed.
pub fn parse_files(sources: &Vec<SourceFile>) -> (r: Vec<SourceTree>)
    ensures
        trees_view(r@) == readable(sources@),
        forall|i: int| 0 <= i < r@.len() ==> crate::cst::node_text(#[trigger] r@[i].parse.tree()) == r@[i].source@,
        forall|i: int| 0 <= i < r@.len() ==> #[trigger] r@[i].parse.tree().kind == SyntaxKind::Root,
{
    let mut r: Vec<SourceTree> = Vec::new();
    let mut i: usize = 0;
    while i < sources.len()
        invariant
            0 <= i <= sources@.len(),
            trees_view(r@) == readable(sources@.take(i as int)),
            forall|k: int| 0 <= k < r@.len() ==> crate::cst::node_text(#[trigger] r@[k].parse.tree()) == r@[k].source@,
            forall|k: int| 0 <= k < r@.len() ==> #[trigger] r@[k].parse.tree().kind == SyntaxKind::Root,
        decreases sources@.len() - i,
    {
        let ghost before = r@;
        assert(sources@.take(i + 1).drop_last() =~= sources@.take(i as int));
        match &sources[i].text {
            Some(t) => {
                let tree = parse(t.as_str());
                let p = sources[i].path.clone();
                let src = t.clone();
                r.push(SourceTree { path: p, source: src, parse: tree });
                assert(trees_view(r@) =~= trees_view(before) + seq![(sources@[i as int].path@, t@)]);
                assert forall|k: int| 0 <= k < r@.len() implies crate::cst::node_text(#[trigger] r@[k].parse.tree())
                    == r@[k].source@ by {
                    if k < before.len() {
                        assert(r@[k] == before[k]);
                    }
                }
                assert forall|k: int| 0 <= k < r@.len() implies #[trigger] r@[k].parse.tree().kind == SyntaxKind::Root by {
                    if k < before.len() {
                        assert(r@[k] == before[k]);
                    }
                }
            },
            None => {
                assert(readable(sources@.take(i + 1)) =~= readable(sources@.take(i as int)));
            },
        }
        i = i + 1;
    }
    assert(sources@.take(sources@.len() as int) =~= sources@);
    r
}

/// The first of `files` at `path`.
pub open spec fn file_at(files: Seq<SourceTree>, path: Seq<char>) -> Option<SourceTree>
    decreases files.len(),
{
    if files.len() == 0 {
        None
    } else if files[0].path@ == path {
        Some(files[0])
    } else {
        file_at(files.drop_first(), path)
    }
}

/// The first of `files` at `path`.
pub fn find_file<'f>(files: &'f Vec<SourceTree>, path: &str) -> (r: Option<&'f SourceTree>)
    ensures
        r matches Some(f) ==> file_at(files@, path@) == Some(*f),
        r is None ==> file_at(files@, path@) is None,
{
    let mut i: usize = 0;
    assert(files@.skip(0) =~= files@);
    while i < files.len()
        invariant
            0 <= i <= files@.len(),
            file_at(files@, path@) == file_at(files@.skip(i as int), path@),
        decreases files@.len() - i,
    {
        assert(files@.skip(i as int).drop_first() =~= files@.skip(i + 1));
        if str_eq(files[i].path.as_str(), path) {
            return Some(&files[i]);
        }
        i = i + 1;
    }
    None
}

/// The files the `use` imports of a document at `file_path` refer to.
pub open spec fn spec_imported_files(root: Node, file_path: Seq<char>) -> Seq<Seq<char>>
    decreases spec_root_items(root, SyntaxKind::UseDecl).len(),
{
    concat_map(spec_root_items(root, SyntaxKind::UseDecl), import_file_f(file_path))
}

pub open spec fn import_file_f(file_path: Seq<char>) -> spec_fn(Node) -> Seq<Seq<char>> {
    |d: Node| match spec_attr_scalar(d, seq_path()) {
        Some(loc) => seq![spec_import_target(file_path, loc)],
        None => Seq::empty(),
    }
}

/// The files the `use` imports of the document at `file_path` refer to, for
/// the editor to read before resolving references into them.
pub fn imported_files(root: &Root, file_path: &str) -> (r: Vec<String>)
    ensures
        strs_view(r@) == spec_imported_files(root.node(), file_path@),
{
    let decls = root.body_items(SyntaxKind::UseDecl);
    let ghost sd = spec_root_items(root.node(), SyntaxKind::UseDecl);
    let ghost f = import_file_f(file_path@);
    let mut r: Vec<String> = Vec::new();
    let mut i: usize = 0;
    while i < decls.len()
        invariant
            0 <= i <= decls@.len(),
            decls@.len() == sd.len(),
            forall|j: int| 0 <= j < decls@.len() ==> *decls@[j] == sd[j],
            f == import_file_f(file_path@),
            strs_view(r@) == concat_map(sd.take(i as int), f),
        decreases decls@.len() - i,
    {
        let ghost before = strs_view(r@);
        proof {
            lemma_concat_map_step(sd, f, i as int);
            reveal_strlit("path");
            assert("path"@ =~= seq_path());
        }
        match attr_scalar(decls[i], "path") {
            Some(loc) => {
                let target = import_target(file_path, loc.as_str());
                r.push(target);
                assert(strs_view(r@) =~= before + f(sd[i as int]));
            },
            None => {
                assert(strs_view(r@) =~= before + f(sd[i as int]));
            },
        }
        i = i + 1;
    }
    proof {
        lemma_concat_map_whole(sd, f);
    }
    r
}

// ─── template ids and references ─────────────────────────────────────────────

/// The file a template reference points into.
#[derive(Clone, Debug, PartialEq, Eq)]
pub enum TemplateFile {
    /// The file the reference itself is written in.
    Current,
    /// Another file, reached through a `use` import.
    Imported(String),
}

/// The template an `inherit` reference names.
///
/// Two references naming the same template have equal ids, however they are
/// written, which is what makes "find references" and rename work across
/// stages and files.
#[derive(Clone, Debug, PartialEq, Eq)]
pub struct TemplateId {
    pub file: TemplateFile,
    /// The stage the template is defined in; `None` for a top-level template.
    pub stage: Option<String>,
    pub name: String,
}

/// One `inherit` reference, with the ranges of the parts that name things.
#[derive(Debug)]
pub struct TemplateRef {
    pub id: TemplateId,
    /// Just the template name, e.g. `base` of `dep/build.base`.
    pub name_range: TextRange,
    /// Just the stage name, when the reference is qualified with one.
    pub stage_range: Option<TextRange>,
    /// The import the reference goes through, e.g. `dep` of `dep/build.base`.
    pub import: Option<String>,
    /// Just the import name's range.
    pub import_range: Option<TextRange>,
}

/// Where a template is defined.
#[derive(Debug)]
pub struct TemplateDefLocation {
    /// The file, when it isn't the one the reference was written in.
    pub path: Option<String>,
    /// The source of that file, for turning `name_range` into lines and columns.
    pub source: String,
    pub name_range: TextRange,
}

/// A template id as values: the file (`None` for the current one), the stage
/// and the name.
pub type IdView = (Option<Seq<char>>, Option<Seq<char>>, Seq<char>);

/// A reference as values: the id, the name's range, the stage's range, the
/// import and its range.
pub type RefView = (IdView, TextRange, Option<TextRange>, Option<Seq<char>>, Option<TextRange>);

pub open spec fn opt_str(o: Option<String>) -> Option<Seq<char>> {
    match o {
        Some(s) => Some(s@),
        None => None,
    }
}

pub open spec fn opt_ref(o: Option<&str>) -> Option<Seq<char>> {
    match o {
        Some(s) => Some(s@),
        None => None,
    }
}

pub open spec fn file_view(f: TemplateFile) -> Option<Seq<char>> {
    match f {
        TemplateFile::Current => None,
        TemplateFile::Imported(p) => Some(p@),
    }
}

pub open spec fn id_view(id: TemplateId) -> IdView {
    (file_view(id.file), opt_str(id.stage), id.name@)
}

pub open spec fn ref_view(r: TemplateRef) -> RefView {
    (id_view(r.id), r.name_range, r.stage_range, opt_str(r.import), r.import_range)
}

pub open spec fn ref_views(v: Seq<TemplateRef>) -> Seq<RefView> {
    v.map_values(|r: TemplateRef| ref_view(r))
}

pub fn opt_eq(a: &Option<String>, b: &Option<String>) -> (r: bool)
    ensures
        r == (opt_str(*a) == opt_str(*b)),
{
    match (a, b) {
        (Some(x), Some(y)) => str_eq(x.as_str(), y.as_str()),
        (None, None) => true,
        _ => false,
    }
}

/// `true` if `a` and `b` are the same path once normalized.
pub fn normalize_eq(a: &str, b: &str) -> (r: bool)
    ensures
        r == (crate::paths::spec_normalize(a@) == crate::paths::spec_normalize(b@)),
{
    let x = crate::paths::normalize(a);
    let y = crate::paths::normalize(b);
    str_eq(x.as_str(), y.as_str())
}

/// `true` if `a` and `b` name the same template.
pub fn same_id(a: &TemplateId, b: &TemplateId) -> (r: bool)
    ensures
        r == (id_view(*a) == id_view(*b)),
{
    let file = match (&a.file, &b.file) {
        (TemplateFile::Current, TemplateFile::Current) => true,
        (TemplateFile::Imported(x), TemplateFile::Imported(y)) => str_eq(x.as_str(), y.as_str()),
        _ => false,
    };
    file && opt_eq(&a.stage, &b.stage) && str_eq(a.name.as_str(), b.name.as_str())
}


// ─── splitting a reference ───────────────────────────────────────────────────

/// The parts of a `[import/][stage.]name` reference, with the offset of each
/// name within the text it was split from.
pub struct RefParts {
    pub import: Option<String>,
    pub stage: Option<(usize, String)>,
    pub name: (usize, String),
}

pub type PartsView = (Option<Seq<char>>, Option<(int, Seq<char>)>, (int, Seq<char>));

pub open spec fn parts_view(p: RefParts) -> PartsView {
    (
        opt_str(p.import),
        match p.stage {
            Some((at, s)) => Some((at as int, s@)),
            None => None,
        },
        (p.name.0 as int, p.name.1@),
    )
}

/// `s` split at its first `/` into the import, and the rest at its first `.`
/// into the stage and the name.
pub open spec fn spec_split_ref(s: Seq<char>) -> PartsView {
    let slash = find_char(s, '/');
    let import = if slash < s.len() { Some(s.subrange(0, slash)) } else { None };
    let at = if slash < s.len() { slash + 1 } else { 0 };
    let rest = s.subrange(at, s.len() as int);
    let dot = find_char(rest, '.');
    if dot < rest.len() {
        (import, Some((at, rest.subrange(0, dot))), (at + dot + 1, rest.subrange(dot + 1, rest.len() as int)))
    } else {
        (import, None, (at, rest))
    }
}

pub fn split_ref(text: &str) -> (r: RefParts)
    ensures
        parts_view(r) == spec_split_ref(text@),
{
    let cs = chars_of(text);
    let (import, at) = match find_char_in(text, '/') {
        Some(slash) => (Some(substring(&cs, 0, slash)), slash + 1),
        None => (None, 0),
    };
    let rest = substring(&cs, at, cs.len());
    let rcs = chars_of(rest.as_str());
    match find_char_in(rest.as_str(), '.') {
        Some(dot) => {
            let stage = substring(&rcs, 0, dot);
            let name = substring(&rcs, dot + 1, rcs.len());
            RefParts { import, stage: Some((at, stage)), name: (at + dot + 1, name) }
        },
        None => RefParts { import, stage: None, name: (at, rest) },
    }
}

/// The range of `len` characters `at` characters into a token starting at `start`.
pub open spec fn spec_range_at(start: usize, at: int, len: int) -> TextRange {
    TextRange { start: sat(start + at), end: sat(sat(start + at) + len) }
}

fn range_at(start: usize, at: usize, len: usize) -> (r: TextRange)
    ensures
        r == spec_range_at(start, at as int, len as int),
{
    let s = start.saturating_add(at);
    TextRange { start: s, end: s.saturating_add(len) }
}

// ─── finding things by name ──────────────────────────────────────────────────

pub open spec fn derefs(v: Seq<&Node>) -> Seq<Node> {
    v.map_values(|n: &Node| *n)
}

/// The first of `items[i..]` called `name`.
pub open spec fn first_named_from(items: Seq<Node>, name: Seq<char>, i: int) -> Option<Node>
    decreases items.len() - i,
{
    if i < 0 || i >= items.len() {
        None
    } else if spec_name(items[i]) == Some(name) {
        Some(items[i])
    } else {
        first_named_from(items, name, i + 1)
    }
}

pub open spec fn first_named(items: Seq<Node>, name: Seq<char>) -> Option<Node> {
    first_named_from(items, name, 0)
}

/// The first of `items` called `name`.
pub fn find_named<'a>(items: &Vec<&'a Node>, name: &str) -> (r: Option<&'a Node>)
    ensures
        r matches Some(n) ==> first_named(derefs(items@), name@) == Some(*n),
        r is None ==> first_named(derefs(items@), name@) is None,
{
    let ghost s = derefs(items@);
    let mut i: usize = 0;
    while i < items.len()
        invariant
            0 <= i <= items@.len(),
            s == derefs(items@),
            first_named(s, name@) == first_named_from(s, name@, i as int),
        decreases items@.len() - i,
    {
        assert(s[i as int] == *items@[i as int]);
        match name_of(items[i]) {
            Some(n) => {
                if str_eq(n.as_str(), name) {
                    return Some(items[i]);
                }
            },
            None => {},
        }
        i = i + 1;
    }
    None
}

/// The names of the named ones of `items`.
pub fn names_in(items: &Vec<&Node>) -> (r: Vec<String>)
    ensures
        strs_view(r@) == names_of(derefs(items@)),
{
    let ghost s = derefs(items@);
    let mut r: Vec<String> = Vec::new();
    let mut i: usize = 0;
    while i < items.len()
        invariant
            0 <= i <= items@.len(),
            s == derefs(items@),
            strs_view(r@) == names_of(s.take(i as int)),
        decreases items@.len() - i,
    {
        let ghost before = strs_view(r@);
        assert(s.take(i + 1).drop_last() =~= s.take(i as int));
        assert(s[i as int] == *items@[i as int]);
        match name_of(items[i]) {
            Some(n) => {
                r.push(n);
                assert(strs_view(r@) =~= before + seq![r@.last()@]);
            },
            None => {
                assert(strs_view(r@) =~= before + Seq::empty());
            },
        }
        i = i + 1;
    }
    assert(s.take(s.len() as int) =~= s);
    r
}

/// The stages of a file, in every workflow body.
pub open spec fn stages_of(root: Node) -> Seq<Node> {
    spec_root_items(root, SyntaxKind::Stage)
}

/// The names of the templates of the first stage called `stage`.
pub open spec fn spec_stage_template_names(root: Node, stage: Seq<char>) -> Seq<Seq<char>> {
    match first_named(stages_of(root), stage) {
        Some(s) => match spec_child_node(s, SyntaxKind::StageBody) {
            Some(b) => names_of(spec_child_nodes(b.children@, SyntaxKind::TemplateDef)),
            None => Seq::empty(),
        },
        None => Seq::empty(),
    }
}

pub proof fn lemma_root_items(root: &Root, items: Seq<&Node>, k: SyntaxKind)
    requires
        items.len() == spec_root_items(root.node(), k).len(),
        forall|i: int| 0 <= i < items.len() ==> *items[i] == spec_root_items(root.node(), k)[i],
    ensures
        derefs(items) == spec_root_items(root.node(), k),
{
    assert(derefs(items) =~= spec_root_items(root.node(), k));
}

pub proof fn lemma_child_nodes(n: Node, items: Seq<&Node>, k: SyntaxKind)
    requires
        items.len() == spec_child_nodes(n.children@, k).len(),
        forall|i: int| 0 <= i < items.len() ==> *items[i] == spec_child_nodes(n.children@, k)[i],
    ensures
        derefs(items) == spec_child_nodes(n.children@, k),
{
    assert(derefs(items) =~= spec_child_nodes(n.children@, k));
}

/// The names of the templates of the first stage of the file called `stage_name`.
pub fn stage_template_names(root: &Root, stage_name: &str) -> (r: Vec<String>)
    ensures
        strs_view(r@) == spec_stage_template_names(root.node(), stage_name@),
{
    let stages = root.body_items(SyntaxKind::Stage);
    proof {
        lemma_root_items(root, stages@, SyntaxKind::Stage);
    }
    match find_named(&stages, stage_name) {
        Some(s) => match s.child_node(SyntaxKind::StageBody) {
            Some(b) => {
                let ts = b.child_nodes(SyntaxKind::TemplateDef);
                proof {
                    lemma_child_nodes(*b, ts@, SyntaxKind::TemplateDef);
                }
                names_in(&ts)
            },
            None => {
                let r: Vec<String> = Vec::new();
                assert(strs_view(r@) =~= Seq::empty());
                r
            },
        },
        None => {
            let r: Vec<String> = Vec::new();
            assert(strs_view(r@) =~= Seq::empty());
            r
        },
    }
}

fn contains_name(names: &Vec<String>, name: &str) -> (r: bool)
    ensures
        r == strs_view(names@).contains(name@),
{
    let mut i: usize = 0;
    while i < names.len()
        invariant
            0 <= i <= names@.len(),
            forall|j: int| 0 <= j < i ==> strs_view(names@)[j] != name@,
        decreases names@.len() - i,
    {
        if str_eq(names[i].as_str(), name) {
            assert(strs_view(names@)[i as int] == name@);
            return true;
        }
        i = i + 1;
    }
    false
}

// ─── ids ─────────────────────────────────────────────────────────────────────

/// The file the import called `import_name` brings in, as seen from `file_path`.
pub open spec fn spec_import_path(root: Node, import_name: Seq<char>, file_path: Seq<char>) -> Option<Seq<char>> {
    match first_named(spec_root_items(root, SyntaxKind::UseDecl), import_name) {
        Some(d) => match spec_attr_scalar(d, seq_path()) {
            Some(loc) => Some(spec_import_target(file_path, loc)),
            None => None,
        },
        None => None,
    }
}

pub fn import_path(root: &Root, import_name: &str, file_path: &str) -> (r: Option<String>)
    ensures
        opt_str(r) == spec_import_path(root.node(), import_name@, file_path@),
{
    let decls = root.body_items(SyntaxKind::UseDecl);
    proof {
        lemma_root_items(root, decls@, SyntaxKind::UseDecl);
        reveal_strlit("path");
        assert("path"@ =~= seq_path());
    }
    match find_named(&decls, import_name) {
        Some(d) => match attr_scalar(d, "path") {
            Some(loc) => Some(import_target(file_path, loc.as_str())),
            None => None,
        },
        None => None,
    }
}

/// The id of the template `[import/][stage.]name` written in `context`.
///
/// An unqualified name in the current file is the stage's own template when
/// there is one, and a top-level template otherwise.
pub open spec fn spec_make_id(
    root: Node,
    file_path: Seq<char>,
    import: Option<Seq<char>>,
    stage: Option<Seq<char>>,
    name: Seq<char>,
    context: Option<Seq<char>>,
) -> Option<IdView> {
    let file: Option<Option<Seq<char>>> = match import {
        Some(i) => match spec_import_path(root, i, file_path) {
            Some(p) => Some(Some(p)),
            None => None,
        },
        None => Some(None),
    };
    match file {
        None => None,
        Some(f) => Some(
            (
                f,
                match stage {
                    Some(s) => Some(s),
                    None => if f is Some {
                        None
                    } else {
                        match context {
                            Some(c) => if spec_stage_template_names(root, c).contains(name) {
                                Some(c)
                            } else {
                                None
                            },
                            None => None,
                        }
                    },
                },
                name,
            ),
        ),
    }
}

pub open spec fn opt_id(o: Option<TemplateId>) -> Option<IdView> {
    match o {
        Some(id) => Some(id_view(id)),
        None => None,
    }
}

pub fn make_id(
    root: &Root,
    file_path: &str,
    import: Option<&str>,
    stage: Option<&str>,
    name: &str,
    context: Option<&str>,
) -> (r: Option<TemplateId>)
    ensures
        opt_id(r) == spec_make_id(root.node(), file_path@, opt_ref(import), opt_ref(stage), name@, opt_ref(context)),
{
    let file = match import {
        Some(import_name) => match import_path(root, import_name, file_path) {
            Some(p) => TemplateFile::Imported(p),
            None => return None,
        },
        None => TemplateFile::Current,
    };
    let stage = match stage {
        Some(s) => Some(s.to_string()),
        None => match &file {
            TemplateFile::Imported(_) => None,
            TemplateFile::Current => match context {
                Some(c) => {
                    let names = stage_template_names(root, c);
                    if contains_name(&names, name) {
                        Some(c.to_string())
                    } else {
                        None
                    }
                },
                None => None,
            },
        },
    };
    Some(TemplateId { file, stage, name: name.to_string() })
}

// ─── references ──────────────────────────────────────────────────────────────

pub open spec fn stage_part(p: Option<(int, Seq<char>)>) -> Option<Seq<char>> {
    match p {
        Some((_, s)) => Some(s),
        None => None,
    }
}

pub open spec fn opt_seq<T>(o: Option<T>) -> Seq<T> {
    match o {
        Some(x) => seq![x],
        None => Seq::empty(),
    }
}

pub open spec fn opt_ref_view(o: Option<TemplateRef>) -> Option<RefView> {
    match o {
        Some(r) => Some(ref_view(r)),
        None => None,
    }
}

/// The reference written as the bare value `t`.
pub open spec fn spec_bare_value_ref(root: Node, file_path: Seq<char>, t: Token, context: Option<Seq<char>>) -> Option<RefView> {
    let parts = spec_split_ref(t.text@);
    match spec_make_id(root, file_path, parts.0, stage_part(parts.1), parts.2.1, context) {
        Some(id) => Some(
            (
                id,
                spec_range_at(t.start, parts.2.0, parts.2.1.len() as int),
                match parts.1 {
                    Some((at, st)) => Some(spec_range_at(t.start, at, st.len() as int)),
                    None => None,
                },
                parts.0,
                match parts.0 {
                    Some(imp) => Some(spec_range_at(t.start, 0, imp.len() as int)),
                    None => None,
                },
            ),
        ),
        None => None,
    }
}

fn bare_value_ref(token: &Token, root: &Root, file_path: &str, context: Option<&str>) -> (r: Option<TemplateRef>)
    ensures
        opt_ref_view(r) == spec_bare_value_ref(root.node(), file_path@, *token, opt_ref(context)),
{
    let parts = split_ref(token.text.as_str());
    let start = token.start;
    let stage_text: Option<&str> = match &parts.stage {
        Some((_, st)) => Some(st.as_str()),
        None => None,
    };
    let import_text: Option<&str> = match &parts.import {
        Some(i) => Some(i.as_str()),
        None => None,
    };
    let id = match make_id(root, file_path, import_text, stage_text, parts.name.1.as_str(), context) {
        Some(id) => id,
        None => return None,
    };
    let name_range = range_at(start, parts.name.0, parts.name.1.unicode_len());
    let stage_range = match &parts.stage {
        Some((at, st)) => Some(range_at(start, *at, st.unicode_len())),
        None => None,
    };
    let import_range = match &parts.import {
        Some(i) => Some(range_at(start, 0, i.unicode_len())),
        None => None,
    };
    let import = match &parts.import {
        Some(i) => Some(i.clone()),
        None => None,
    };
    Some(TemplateRef { id, name_range, stage_range, import, import_range })
}

/// The identifier tokens among `es[..k]`.
pub open spec fn idents(es: Seq<Element>, k: int) -> Seq<Token>
    decreases k,
{
    if k <= 0 || k > es.len() {
        Seq::empty()
    } else {
        let rest = idents(es, k - 1);
        match es[k - 1] {
            Element::Token(t) => if t.kind == SyntaxKind::Ident {
                rest.push(t)
            } else {
                rest
            },
            Element::Node(_) => rest,
        }
    }
}

pub open spec fn ref_idents(r: Node) -> Seq<Token> {
    idents(r.children@, r.children@.len() as int)
}

/// The identifier tokens of a reference node.
pub fn ref_ident_tokens(r: &Node) -> (out: Vec<&Token>)
    ensures
        out@.len() == ref_idents(*r).len(),
        forall|i: int| 0 <= i < out@.len() ==> *out@[i] == ref_idents(*r)[i],
{
    let es = &r.children;
    let mut out: Vec<&Token> = Vec::new();
    let mut i: usize = 0;
    while i < es.len()
        invariant
            0 <= i <= es@.len(),
            es@ == r.children@,
            out@.len() == idents(es@, i as int).len(),
            forall|j: int| 0 <= j < out@.len() ==> *out@[j] == idents(es@, i as int)[j],
        decreases es@.len() - i,
    {
        match &es[i] {
            Element::Token(t) => {
                if t.kind == SyntaxKind::Ident {
                    out.push(t);
                }
            },
            Element::Node(_) => {},
        }
        i = i + 1;
    }
    out
}

/// The reference written as the item `r` of a reference list.
pub open spec fn spec_list_ref(root: Node, file_path: Seq<char>, r: Node, context: Option<Seq<char>>) -> Option<RefView> {
    let parts = spec_split_ref(spec_ref_text(r));
    let ids = ref_idents(r);
    if ids.len() == 0 {
        None
    } else {
        match spec_make_id(root, file_path, parts.0, stage_part(parts.1), parts.2.1, context) {
            Some(id) => Some(
                (
                    id,
                    spec_token_range(ids.last()),
                    if parts.1 is Some && ids.len() >= 2 {
                        Some(spec_token_range(ids[ids.len() - 2]))
                    } else {
                        None
                    },
                    parts.0,
                    if parts.0 is Some {
                        Some(spec_token_range(ids[0]))
                    } else {
                        None
                    },
                ),
            ),
            None => None,
        }
    }
}

fn list_ref(item: &Node, root: &Root, file_path: &str, context: Option<&str>) -> (r: Option<TemplateRef>)
    requires
        item.kind == SyntaxKind::Ref,
    ensures
        opt_ref_view(r) == spec_list_ref(root.node(), file_path@, *item, opt_ref(context)),
{
    let text = crate::ast::Ref::cast(item).unwrap().text();
    let parts = split_ref(text.as_str());
    let ids = ref_ident_tokens(item);
    if ids.len() == 0 {
        return None;
    }
    let stage_text: Option<&str> = match &parts.stage {
        Some((_, st)) => Some(st.as_str()),
        None => None,
    };
    let import_text: Option<&str> = match &parts.import {
        Some(i) => Some(i.as_str()),
        None => None,
    };
    let id = match make_id(root, file_path, import_text, stage_text, parts.name.1.as_str(), context) {
        Some(id) => id,
        None => return None,
    };
    let name_range = token_range(ids[ids.len() - 1]);
    let stage_range = if parts.stage.is_some() && ids.len() >= 2 {
        Some(token_range(ids[ids.len() - 2]))
    } else {
        None
    };
    let import_range = if parts.import.is_some() {
        Some(token_range(ids[0]))
    } else {
        None
    };
    let import = match &parts.import {
        Some(i) => Some(i.clone()),
        None => None,
    };
    Some(TemplateRef { id, name_range, stage_range, import, import_range })
}

/// `true` if the key of the attribute `n` is `key`.
pub fn key_is(n: &Node, key: &str) -> (r: bool)
    ensures
        r == (spec_key_text(*n) == Some(key@)),
{
    match crate::ast::key_token_of(n) {
        Some(t) => str_eq(t.text.as_str(), key),
        None => false,
    }
}

/// The `inherit` reference that the token with ancestors `p` is part of.
pub open spec fn spec_ref_at(root: Node, file_path: Seq<char>, p: Seq<&Node>, t: Token) -> Option<RefView> {
    if p.len() == 0 {
        None
    } else if t.kind == SyntaxKind::BareValue {
        if kind_up(p, 1) == Some(SyntaxKind::Attr) && spec_key_text(up(p, 1).unwrap()) == Some("inherit"@) {
            spec_bare_value_ref(root, file_path, t, stage_name_at(p, p.len() - 1))
        } else {
            None
        }
    } else if t.kind == SyntaxKind::Ident {
        if kind_up(p, 0) == Some(SyntaxKind::Ref) && kind_up(p, 1) == Some(SyntaxKind::RefList) && kind_up(p, 3)
            == Some(SyntaxKind::Attr) && spec_key_text(up(p, 3).unwrap()) == Some("inherit"@) {
            spec_list_ref(root, file_path, up(p, 0).unwrap(), stage_name_at(p, p.len() - 1))
        } else {
            None
        }
    } else {
        None
    }
}

/// The `inherit` reference that the located token is part of, if any.
pub fn ref_at(l: &Located, root: &Root, file_path: &str) -> (r: Option<TemplateRef>)
    ensures
        opt_ref_view(r) == spec_ref_at(root.node(), file_path@, l.ancestors@, *l.token),
{
    let p = &l.ancestors;
    let n = p.len();
    if n == 0 {
        return None;
    }
    let token = l.token;
    if token.kind == SyntaxKind::BareValue {
        if kind_above(p, 1) == Some(SyntaxKind::Attr) && key_is(p[n - 2], "inherit") {
            let context = enclosing_stage_name(p, n - 1);
            let c: Option<&str> = match &context {
                Some(c) => Some(c.as_str()),
                None => None,
            };
            return bare_value_ref(token, root, file_path, c);
        }
        return None;
    }
    if token.kind == SyntaxKind::Ident {
        if kind_above(p, 0) == Some(SyntaxKind::Ref) && kind_above(p, 1) == Some(SyntaxKind::RefList) && kind_above(p, 3)
            == Some(SyntaxKind::Attr) && key_is(p[n - 4], "inherit") {
            let context = enclosing_stage_name(p, n - 1);
            let c: Option<&str> = match &context {
                Some(c) => Some(c.as_str()),
                None => None,
            };
            return list_ref(p[n - 1], root, file_path, c);
        }
        return None;
    }
    None
}

/// The template declared at the token with ancestors `p`, if it is a template's name.
pub open spec fn spec_def_at(p: Seq<&Node>, t: Token) -> Option<IdView> {
    if t.kind == SyntaxKind::Ident && kind_up(p, 0) == Some(SyntaxKind::Name) && kind_up(p, 1) == Some(
        SyntaxKind::TemplateDef,
    ) {
        Some((None, stage_name_at(p, p.len() - 2), t.text@))
    } else {
        None
    }
}

/// The template declared at the located token, if it is a `template` name.
pub fn def_at(l: &Located) -> (r: Option<TemplateId>)
    ensures
        opt_id(r) == spec_def_at(l.ancestors@, *l.token),
{
    let p = &l.ancestors;
    if l.token.kind == SyntaxKind::Ident && kind_above(p, 0) == Some(SyntaxKind::Name) && kind_above(p, 1) == Some(
        SyntaxKind::TemplateDef,
    ) {
        let stage = enclosing_stage_name(p, p.len() - 2);
        return Some(TemplateId { file: TemplateFile::Current, stage, name: l.token.text.clone() });
    }
    None
}

// ─── every reference of a file ───────────────────────────────────────────────

/// The `inherit` attributes among `attrs`, each with `context`.
pub open spec fn inherit_pairs(attrs: Seq<Node>, context: Option<Seq<char>>) -> Seq<(Option<Seq<char>>, Node)>
    decreases attrs.len(),
{
    if attrs.len() == 0 {
        Seq::empty()
    } else {
        inherit_pairs(attrs.drop_last(), context) + if spec_key_text(attrs.last()) == Some("inherit"@) {
            seq![(context, attrs.last())]
        } else {
            Seq::empty()
        }
    }
}

pub open spec fn owner_pairs_f(context: Option<Seq<char>>) -> spec_fn(Node) -> Seq<(Option<Seq<char>>, Node)> {
    |n: Node| inherit_pairs(spec_attrs(n), context)
}

/// The `inherit` attributes of the jobs and templates of a stage, with its name.
pub open spec fn stage_pairs(s: Node) -> Seq<(Option<Seq<char>>, Node)> {
    match spec_child_node(s, SyntaxKind::StageBody) {
        Some(b) => concat_map(spec_child_nodes(b.children@, SyntaxKind::Job), owner_pairs_f(spec_name(s))) + concat_map(
            spec_child_nodes(b.children@, SyntaxKind::TemplateDef),
            owner_pairs_f(spec_name(s)),
        ),
        None => Seq::empty(),
    }
}

pub open spec fn stage_pairs_f() -> spec_fn(Node) -> Seq<(Option<Seq<char>>, Node)> {
    |s: Node| stage_pairs(s)
}

/// Every `inherit` attribute of the file, with the stage it's written in:
/// those of the top-level templates, then those of each stage.
pub open spec fn spec_inherit_attrs(root: Node) -> Seq<(Option<Seq<char>>, Node)> {
    concat_map(spec_root_items(root, SyntaxKind::TemplateDef), owner_pairs_f(None)) + concat_map(
        stages_of(root),
        stage_pairs_f(),
    )
}

pub open spec fn pairs_view(v: Seq<(Option<String>, &Node)>) -> Seq<(Option<Seq<char>>, Node)> {
    v.map_values(|e: (Option<String>, &Node)| (opt_str(e.0), *e.1))
}

fn clone_opt(o: &Option<String>) -> (r: Option<String>)
    ensures
        opt_str(r) == opt_str(*o),
{
    match o {
        Some(s) => Some(s.clone()),
        None => None,
    }
}

/// Add the `inherit` attributes of `owner` to `out`.
fn push_inherit_attrs<'a>(owner: &'a Node, context: &Option<String>, out: &mut Vec<(Option<String>, &'a Node)>)
    ensures
        pairs_view(final(out)@) == pairs_view(old(out)@) + inherit_pairs(spec_attrs(*owner), opt_str(*context)),
{
    let ghost start = pairs_view(out@);
    let al = match owner.child_node(SyntaxKind::AttrList) {
        Some(al) => al,
        None => {
            assert(pairs_view(out@) =~= start + inherit_pairs(spec_attrs(*owner), opt_str(*context)));
            return ;
        },
    };
    let attrs = al.child_nodes(SyntaxKind::Attr);
    let ghost sa = spec_child_nodes(al.children@, SyntaxKind::Attr);
    assert(sa == spec_attrs(*owner));
    let mut i: usize = 0;
    while i < attrs.len()
        invariant
            0 <= i <= attrs@.len(),
            attrs@.len() == sa.len(),
            forall|j: int| 0 <= j < attrs@.len() ==> *attrs@[j] == sa[j],
            pairs_view(out@) == start + inherit_pairs(sa.take(i as int), opt_str(*context)),
        decreases attrs@.len() - i,
    {
        let ghost before = pairs_view(out@);
        assert(sa.take(i + 1).drop_last() =~= sa.take(i as int));
        assert(sa.take(i + 1).last() == sa[i as int]);
        if key_is(attrs[i], "inherit") {
            out.push((clone_opt(context), attrs[i]));
            assert(pairs_view(out@) =~= before + seq![(opt_str(*context), sa[i as int])]);
        }
        assert(pairs_view(out@) =~= start + inherit_pairs(sa.take(i + 1), opt_str(*context)));
        i = i + 1;
    }
    assert(sa.take(sa.len() as int) =~= sa);
}

/// Add the `inherit` attributes of each of `owners` to `out`.
fn push_owners_attrs<'a>(
    owners: &Vec<&'a Node>,
    context: &Option<String>,
    out: &mut Vec<(Option<String>, &'a Node)>,
)
    ensures
        pairs_view(final(out)@) == pairs_view(old(out)@) + concat_map(derefs(owners@), owner_pairs_f(opt_str(*context))),
{
    let ghost start = pairs_view(out@);
    let ghost s = derefs(owners@);
    let ghost f = owner_pairs_f(opt_str(*context));
    let mut i: usize = 0;
    while i < owners.len()
        invariant
            0 <= i <= owners@.len(),
            s == derefs(owners@),
            f == owner_pairs_f(opt_str(*context)),
            pairs_view(out@) == start + concat_map(s.take(i as int), f),
        decreases owners@.len() - i,
    {
        push_inherit_attrs(owners[i], context, out);
        proof {
            lemma_concat_map_step(s, f, i as int);
            assert(s[i as int] == *owners@[i as int]);
            assert(pairs_view(out@) =~= start + concat_map(s.take(i + 1), f));
        }
        i = i + 1;
    }
    proof {
        lemma_concat_map_whole(s, f);
    }
}

/// Every `inherit` attribute in the file, with the stage it's written in.
pub fn inherit_attrs<'a>(root: &Root<'a>) -> (r: Vec<(Option<String>, &'a Node)>)
    ensures
        pairs_view(r@) == spec_inherit_attrs(root.node()),
{
    let mut out: Vec<(Option<String>, &'a Node)> = Vec::new();
    let tops = root.body_items(SyntaxKind::TemplateDef);
    proof {
        lemma_root_items(root, tops@, SyntaxKind::TemplateDef);
    }
    assert(pairs_view(out@) =~= Seq::empty());
    push_owners_attrs(&tops, &None, &mut out);
    let ghost mid = pairs_view(out@);
    let stages = root.body_items(SyntaxKind::Stage);
    proof {
        lemma_root_items(root, stages@, SyntaxKind::Stage);
    }
    let ghost ss = derefs(stages@);
    let mut i: usize = 0;
    while i < stages.len()
        invariant
            0 <= i <= stages@.len(),
            ss == derefs(stages@),
            ss == stages_of(root.node()),
            pairs_view(out@) == mid + concat_map(ss.take(i as int), stage_pairs_f()),
        decreases stages@.len() - i,
    {
        let ghost before = pairs_view(out@);
        let stage = stages[i];
        assert(ss[i as int] == *stage);
        let name = name_of(stage);
        match stage.child_node(SyntaxKind::StageBody) {
            Some(body) => {
                let jobs = body.child_nodes(SyntaxKind::Job);
                proof {
                    lemma_child_nodes(*body, jobs@, SyntaxKind::Job);
                }
                push_owners_attrs(&jobs, &name, &mut out);
                let tmpls = body.child_nodes(SyntaxKind::TemplateDef);
                proof {
                    lemma_child_nodes(*body, tmpls@, SyntaxKind::TemplateDef);
                }
                push_owners_attrs(&tmpls, &name, &mut out);
                assert(pairs_view(out@) =~= before + stage_pairs(*stage));
            },
            None => {
                assert(pairs_view(out@) =~= before + stage_pairs(*stage));
            },
        }
        proof {
            lemma_concat_map_step(ss, stage_pairs_f(), i as int);
            assert(pairs_view(out@) =~= mid + concat_map(ss.take(i + 1), stage_pairs_f()));
        }
        i = i + 1;
    }
    proof {
        lemma_concat_map_whole(ss, stage_pairs_f());
        assert(pairs_view(out@) =~= spec_inherit_attrs(root.node()));
    }
    out
}

pub open spec fn list_ref_f(root: Node, file_path: Seq<char>, context: Option<Seq<char>>) -> spec_fn(Node) -> Seq<RefView> {
    |r: Node| opt_seq(spec_list_ref(root, file_path, r, context))
}

/// The references an `inherit` attribute written in `context` holds.
pub open spec fn attr_refs(root: Node, file_path: Seq<char>, context: Option<Seq<char>>, a: Node) -> Seq<RefView> {
    match spec_attr_value(a) {
        Some(v) => match spec_child_token(v, SyntaxKind::BareValue) {
            Some(t) => opt_seq(spec_bare_value_ref(root, file_path, t, context)),
            None => match spec_child_node(v, SyntaxKind::RefList) {
                Some(rl) => concat_map(spec_child_nodes(rl.children@, SyntaxKind::Ref), list_ref_f(root, file_path, context)),
                None => Seq::empty(),
            },
        },
        None => Seq::empty(),
    }
}

pub open spec fn attr_refs_f(root: Node, file_path: Seq<char>) -> spec_fn((Option<Seq<char>>, Node)) -> Seq<RefView> {
    |e: (Option<Seq<char>>, Node)| attr_refs(root, file_path, e.0, e.1)
}

/// Every `inherit` reference of the file, in the order of the attributes.
pub open spec fn spec_all_refs(root: Node, file_path: Seq<char>) -> Seq<RefView> {
    concat_map(spec_inherit_attrs(root), attr_refs_f(root, file_path))
}

fn push_ref(out: &mut Vec<TemplateRef>, r: Option<TemplateRef>)
    ensures
        ref_views(final(out)@) == ref_views(old(out)@) + opt_seq(opt_ref_view(r)),
{
    let ghost before = ref_views(out@);
    match r {
        Some(x) => {
            let ghost v = ref_view(x);
            out.push(x);
            assert(ref_views(out@) =~= before + seq![v]);
        },
        None => {
            assert(ref_views(out@) =~= before + Seq::empty());
        },
    }
}

fn push_attr_refs(
    attr: &Node,
    context: &Option<String>,
    root: &Root,
    file_path: &str,
    out: &mut Vec<TemplateRef>,
)
    ensures
        ref_views(final(out)@) == ref_views(old(out)@) + attr_refs(root.node(), file_path@, opt_str(*context), *attr),
{
    let ghost start = ref_views(out@);
    let c: Option<&str> = match context {
        Some(c) => Some(c.as_str()),
        None => None,
    };
    match attr.child_node(SyntaxKind::AttrValue) {
        None => {
            assert(ref_views(out@) =~= start + attr_refs(root.node(), file_path@, opt_str(*context), *attr));
        },
        Some(value) => match value.child_token(SyntaxKind::BareValue) {
            Some(t) => {
                let r = bare_value_ref(t, root, file_path, c);
                push_ref(out, r);
            },
            None => match value.child_node(SyntaxKind::RefList) {
                Some(list) => {
                    let items = list.child_nodes(SyntaxKind::Ref);
                    let ghost si = spec_child_nodes(list.children@, SyntaxKind::Ref);
                    let ghost f = list_ref_f(root.node(), file_path@, opt_str(*context));
                    let mut i: usize = 0;
                    while i < items.len()
                        invariant
                            0 <= i <= items@.len(),
                            items@.len() == si.len(),
                            forall|j: int| 0 <= j < items@.len() ==> *items@[j] == si[j],
                            si == spec_child_nodes(list.children@, SyntaxKind::Ref),
                            f == list_ref_f(root.node(), file_path@, opt_str(*context)),
                            opt_ref(c) == opt_str(*context),
                            ref_views(out@) == start + concat_map(si.take(i as int), f),
                        decreases items@.len() - i,
                    {
                        proof {
                            crate::cst::lemma_child_nodes_kind(list.children@, SyntaxKind::Ref, i as int);
                        }
                        assert(items@[i as int].kind == SyntaxKind::Ref);
                        let r = list_ref(items[i], root, file_path, c);
                        push_ref(out, r);
                        proof {
                            lemma_concat_map_step(si, f, i as int);
                            assert(ref_views(out@) =~= start + concat_map(si.take(i + 1), f));
                        }
                        i = i + 1;
                    }
                    proof {
                        lemma_concat_map_whole(si, f);
                    }
                },
                None => {
                    assert(ref_views(out@) =~= start + attr_refs(root.node(), file_path@, opt_str(*context), *attr));
                },
            },
        },
    }
}

/// Every `inherit` reference in the file.
pub fn all_refs(root: &Root, file_path: &str) -> (r: Vec<TemplateRef>)
    ensures
        ref_views(r@) == spec_all_refs(root.node(), file_path@),
{
    let attrs = inherit_attrs(root);
    let ghost sa = pairs_view(attrs@);
    let ghost f = attr_refs_f(root.node(), file_path@);
    let mut out: Vec<TemplateRef> = Vec::new();
    let mut i: usize = 0;
    assert(ref_views(out@) =~= Seq::empty());
    while i < attrs.len()
        invariant
            0 <= i <= attrs@.len(),
            sa == pairs_view(attrs@),
            sa == spec_inherit_attrs(root.node()),
            f == attr_refs_f(root.node(), file_path@),
            ref_views(out@) == concat_map(sa.take(i as int), f),
        decreases attrs@.len() - i,
    {
        push_attr_refs(attrs[i].1, &attrs[i].0, root, file_path, &mut out);
        proof {
            lemma_concat_map_step(sa, f, i as int);
            assert(sa[i as int] == (opt_str(attrs@[i as int].0), *attrs@[i as int].1));
            assert(ref_views(out@) =~= concat_map(sa.take(i + 1), f));
        }
        i = i + 1;
    }
    proof {
        lemma_concat_map_whole(sa, f);
    }
    out
}

// ─── definitions ─────────────────────────────────────────────────────────────

/// The template called `name` of the first stage called `stage`, or the
/// top-level one when `stage` is none.
pub open spec fn spec_find_in_root(root: Node, stage: Option<Seq<char>>, name: Seq<char>) -> Option<Node> {
    match stage {
        Some(s) => match first_named(stages_of(root), s) {
            Some(st) => match spec_child_node(st, SyntaxKind::StageBody) {
                Some(b) => first_named(spec_child_nodes(b.children@, SyntaxKind::TemplateDef), name),
                None => None,
            },
            None => None,
        },
        None => first_named(spec_root_items(root, SyntaxKind::TemplateDef), name),
    }
}

pub fn find_in_root<'a>(root: &Root<'a>, stage: Option<&str>, name: &str) -> (r: Option<&'a Node>)
    ensures
        r matches Some(n) ==> spec_find_in_root(root.node(), opt_ref(stage), name@) == Some(*n),
        r is None ==> spec_find_in_root(root.node(), opt_ref(stage), name@) is None,
{
    match stage {
        Some(stage_name) => {
            let stages = root.body_items(SyntaxKind::Stage);
            proof {
                lemma_root_items(root, stages@, SyntaxKind::Stage);
            }
            let st = match find_named(&stages, stage_name) {
                Some(st) => st,
                None => return None,
            };
            let body = match st.child_node(SyntaxKind::StageBody) {
                Some(b) => b,
                None => return None,
            };
            let tmpls = body.child_nodes(SyntaxKind::TemplateDef);
            proof {
                lemma_child_nodes(*body, tmpls@, SyntaxKind::TemplateDef);
            }
            find_named(&tmpls, name)
        },
        None => {
            let tmpls = root.body_items(SyntaxKind::TemplateDef);
            proof {
                lemma_root_items(root, tmpls@, SyntaxKind::TemplateDef);
            }
            find_named(&tmpls, name)
        },
    }
}

/// Where a template is defined, as values: the file (none for the current
/// one), its text, and the range of the template's name.
pub type DefView = (Option<Seq<char>>, Seq<char>, TextRange);

pub open spec fn def_view(d: TemplateDefLocation) -> DefView {
    (opt_str(d.path), d.source@, d.name_range)
}

pub open spec fn opt_def(o: Option<TemplateDefLocation>) -> Option<DefView> {
    match o {
        Some(d) => Some(def_view(d)),
        None => None,
    }
}

/// Where `id` is defined: in the current file `root`, whose text is `source`,
/// or in the file among `files` that it names.
pub open spec fn spec_find_def(id: IdView, root: Node, source: Seq<char>, files: Seq<SourceTree>) -> Option<DefView> {
    match id.0 {
        None => match spec_find_in_root(root, id.1, id.2) {
            Some(d) => match spec_name_token(d) {
                Some(t) => Some((None, source, spec_token_range(t))),
                None => None,
            },
            None => None,
        },
        Some(path) => match file_at(files, path) {
            Some(f) => if f.parse.tree().kind == SyntaxKind::Root {
                match spec_find_in_root(f.parse.tree(), id.1, id.2) {
                    Some(d) => match spec_name_token(d) {
                        Some(t) => Some((Some(path), f.source@, spec_token_range(t))),
                        None => None,
                    },
                    None => None,
                }
            } else {
                None
            },
            None => None,
        },
    }
}

/// What `first_named_from` finds is one of `items` from `i` on, with that
/// name.
pub proof fn lemma_first_named_found(items: Seq<Node>, name: Seq<char>, i: int)
    requires
        0 <= i,
    ensures
        first_named_from(items, name, i) matches Some(x) ==> exists|k: int|
            i <= k < items.len() && #[trigger] items[k] == x && spec_name(x) == Some(name),
    decreases items.len() - i,
{
    if i < items.len() {
        if spec_name(items[i]) == Some(name) {
            assert(items[i] == items[i]);
        } else {
            lemma_first_named_found(items, name, i + 1);
        }
    }
}

/// `nt` is the name of a template called `name` of the file `root`:
/// declared in the body of a stage called `stage`, or at the top level of
/// the file when `stage` is none.
pub open spec fn declares_template_name(root: Node, stage: Option<Seq<char>>, name: Seq<char>, nt: Token) -> bool {
    match stage {
        Some(s) => exists|si: int, b: Node, ti: int| #![trigger stages_of(root)[si], spec_child_nodes(b.children@, SyntaxKind::TemplateDef)[ti]]
            0 <= si < stages_of(root).len() && spec_name(stages_of(root)[si]) == Some(s)
                && spec_child_node(stages_of(root)[si], SyntaxKind::StageBody) == Some(b)
                && 0 <= ti < spec_child_nodes(b.children@, SyntaxKind::TemplateDef).len()
                && spec_child_nodes(b.children@, SyntaxKind::TemplateDef)[ti].kind == SyntaxKind::TemplateDef
                && spec_name_token(spec_child_nodes(b.children@, SyntaxKind::TemplateDef)[ti]) == Some(nt)
                && nt.text@ == name,
        None => exists|ti: int| #![trigger spec_root_items(root, SyntaxKind::TemplateDef)[ti]]
            0 <= ti < spec_root_items(root, SyntaxKind::TemplateDef).len()
                && spec_name_token(spec_root_items(root, SyntaxKind::TemplateDef)[ti]) == Some(nt)
                && nt.text@ == name,
    }
}

/// The definition found for a template is the name of a template of that
/// name, in the stage the reference names (or at the top level): in the
/// current file for a local reference, with its text, and otherwise in the
/// file the reference's import is, with that file's path and text.
pub proof fn lemma_definition_is_template_name(id: IdView, root: Node, source: Seq<char>, files: Seq<SourceTree>)
    requires
        spec_find_def(id, root, source, files) is Some,
    ensures
        ({
            let d = spec_find_def(id, root, source, files).unwrap();
            match id.0 {
                None => d.0 is None && d.1 == source && exists|nt: Token|
                    #[trigger] declares_template_name(root, id.1, id.2, nt) && d.2 == spec_token_range(nt),
                Some(path) => d.0 == Some(path) && file_at(files, path) is Some && d.1 == file_at(files, path).unwrap().source@
                    && exists|nt: Token| #[trigger] declares_template_name(file_at(files, path).unwrap().parse.tree(), id.1, id.2, nt)
                    && d.2 == spec_token_range(nt),
            }
        }),
{
    let tree = match id.0 {
        None => root,
        Some(path) => file_at(files, path).unwrap().parse.tree(),
    };
    let n = spec_find_in_root(tree, id.1, id.2).unwrap();
    let nt = spec_name_token(n).unwrap();
    match id.1 {
        Some(s) => {
            let stages = stages_of(tree);
            let st = first_named(stages, s).unwrap();
            lemma_first_named_found(stages, s, 0);
            let si = choose|k: int| 0 <= k < stages.len() && #[trigger] stages[k] == st && spec_name(st) == Some(s);
            let b = spec_child_node(st, SyntaxKind::StageBody).unwrap();
            let ts = spec_child_nodes(b.children@, SyntaxKind::TemplateDef);
            lemma_first_named_found(ts, id.2, 0);
            let ti = choose|k: int| 0 <= k < ts.len() && #[trigger] ts[k] == n && spec_name(n) == Some(id.2);
            crate::cst::lemma_child_nodes_kind(b.children@, SyntaxKind::TemplateDef, ti);
            assert(declares_template_name(tree, id.1, id.2, nt));
        },
        None => {
            let ts = spec_root_items(tree, SyntaxKind::TemplateDef);
            lemma_first_named_found(ts, id.2, 0);
            let ti = choose|k: int| 0 <= k < ts.len() && #[trigger] ts[k] == n && spec_name(n) == Some(id.2);
            assert(declares_template_name(tree, id.1, id.2, nt));
        },
    }
}

/// Find where `id` is defined, looking into the file it lives in among
/// `files` when that isn't the current one.
pub fn find_def(id: &TemplateId, root: &Root, source: &str, files: &Vec<SourceTree>) -> (r: Option<TemplateDefLocation>)
    ensures
        opt_def(r) == spec_find_def(id_view(*id), root.node(), source@, files@),
{
    let stage: Option<&str> = match &id.stage {
        Some(s) => Some(s.as_str()),
        None => None,
    };
    match &id.file {
        TemplateFile::Current => {
            let def = match find_in_root(root, stage, id.name.as_str()) {
                Some(d) => d,
                None => return None,
            };
            match name_token(def) {
                Some(t) => Some(
                    TemplateDefLocation { path: None, source: source.to_string(), name_range: token_range(t) },
                ),
                None => None,
            }
        },
        TemplateFile::Imported(path) => {
            let f = match find_file(files, path.as_str()) {
                Some(f) => f,
                None => return None,
            };
            let target = match Root::cast(f.parse.syntax()) {
                Some(t) => t,
                None => return None,
            };
            let def = match find_in_root(&target, stage, id.name.as_str()) {
                Some(d) => d,
                None => return None,
            };
            match name_token(def) {
                Some(t) => Some(
                    TemplateDefLocation {
                        path: Some(path.clone()),
                        source: f.source.clone(),
                        name_range: token_range(t),
                    },
                ),
                None => None,
            }
        },
    }
}

// ─── what an `inherit` can name ──────────────────────────────────────────────

/// `prefix + n` for each of `names`.
pub open spec fn prefixed(prefix: Seq<char>, names: Seq<Seq<char>>) -> Seq<Seq<char>> {
    names.map_values(|n: Seq<char>| prefix + n)
}

/// Those of `names` that are not among `local`.
pub open spec fn not_in(names: Seq<Seq<char>>, local: Seq<Seq<char>>) -> Seq<Seq<char>>
    decreases names.len(),
{
    if names.len() == 0 {
        Seq::empty()
    } else {
        not_in(names.drop_last(), local) + if local.contains(names.last()) {
            Seq::empty()
        } else {
            seq![names.last()]
        }
    }
}

pub open spec fn other_stage_f(root: Node, context: Option<Seq<char>>) -> spec_fn(Node) -> Seq<Seq<char>> {
    |st: Node| match spec_name(st) {
        Some(sn) => if Some(sn) == context {
            Seq::empty()
        } else {
            prefixed(sn + "."@, spec_stage_template_names(root, sn))
        },
        None => Seq::empty(),
    }
}

pub open spec fn imported_stage_f(t: Node, import: Seq<char>) -> spec_fn(Node) -> Seq<Seq<char>> {
    |st: Node| match spec_name(st) {
        Some(sn) => prefixed(import + "/"@ + sn + "."@, spec_stage_template_names(t, sn)),
        None => Seq::empty(),
    }
}

/// The references into the file `t` through the import called `import`.
pub open spec fn imported_refs(import: Seq<char>, t: Node) -> Seq<Seq<char>> {
    prefixed(import + "/"@, names_of(spec_root_items(t, SyntaxKind::TemplateDef))) + concat_map(
        stages_of(t),
        imported_stage_f(t, import),
    )
}

pub open spec fn import_refs_f(file_path: Seq<char>, files: Seq<SourceTree>) -> spec_fn(Node) -> Seq<Seq<char>> {
    |d: Node| match (spec_name(d), spec_attr_scalar(d, seq_path())) {
        (Some(n), Some(loc)) => match file_at(files, spec_import_target(file_path, loc)) {
            Some(f) => if f.parse.tree().kind == SyntaxKind::Root {
                imported_refs(n, f.parse.tree())
            } else {
                Seq::empty()
            },
            None => Seq::empty(),
        },
        _ => Seq::empty(),
    }
}

/// The references that can be written in an `inherit` inside `context`:
/// the stage's own templates, the top-level ones it doesn't shadow, those of
/// the other stages, and those of the files the imports bring in.
pub open spec fn spec_visible_refs(
    root: Node,
    file_path: Seq<char>,
    context: Option<Seq<char>>,
    files: Seq<SourceTree>,
) -> Seq<Seq<char>> {
    let local = match context {
        Some(c) => spec_stage_template_names(root, c),
        None => Seq::empty(),
    };
    local + not_in(names_of(spec_root_items(root, SyntaxKind::TemplateDef)), local) + concat_map(
        stages_of(root),
        other_stage_f(root, context),
    ) + concat_map(spec_root_items(root, SyntaxKind::UseDecl), import_refs_f(file_path, files))
}

/// Add `prefix + n` for each of `names` to `out`.
fn push_prefixed(out: &mut Vec<String>, prefix: &str, names: &Vec<String>)
    ensures
        strs_view(final(out)@) == strs_view(old(out)@) + prefixed(prefix@, strs_view(names@)),
{
    let ghost start = strs_view(out@);
    let mut i: usize = 0;
    while i < names.len()
        invariant
            0 <= i <= names@.len(),
            strs_view(out@) == start + prefixed(prefix@, strs_view(names@).take(i as int)),
        decreases names@.len() - i,
    {
        let ghost before = strs_view(out@);
        out.push(crate::text::concat(prefix, names[i].as_str()));
        assert(strs_view(out@) =~= before.push(prefix@ + names@[i as int]@));
        assert(prefixed(prefix@, strs_view(names@).take(i + 1)) =~= prefixed(prefix@, strs_view(names@).take(i as int)).push(
            prefix@ + names@[i as int]@,
        ));
        i = i + 1;
    }
    assert(strs_view(names@).take(names@.len() as int) =~= strs_view(names@));
}

/// The references into the file `t` through the import called `import`.
fn push_imported_refs(out: &mut Vec<String>, import: &str, t: &Root)
    ensures
        strs_view(final(out)@) == strs_view(old(out)@) + imported_refs(import@, t.node()),
{
    let ghost start = strs_view(out@);
    let tmpls = t.body_items(SyntaxKind::TemplateDef);
    proof {
        lemma_root_items(t, tmpls@, SyntaxKind::TemplateDef);
    }
    let names = names_in(&tmpls);
    let prefix = crate::text::concat(import, "/");
    push_prefixed(out, prefix.as_str(), &names);
    let ghost mid = strs_view(out@);
    let stages = t.body_items(SyntaxKind::Stage);
    proof {
        lemma_root_items(t, stages@, SyntaxKind::Stage);
    }
    let ghost ss = derefs(stages@);
    let ghost f = imported_stage_f(t.node(), import@);
    let mut i: usize = 0;
    while i < stages.len()
        invariant
            0 <= i <= stages@.len(),
            ss == derefs(stages@),
            ss == stages_of(t.node()),
            f == imported_stage_f(t.node(), import@),
            prefix@ == import@ + "/"@,
            strs_view(out@) == mid + concat_map(ss.take(i as int), f),
        decreases stages@.len() - i,
    {
        let ghost before = strs_view(out@);
        assert(ss[i as int] == *stages@[i as int]);
        match name_of(stages[i]) {
            Some(sn) => {
                let names = stage_template_names(t, sn.as_str());
                let p1 = crate::text::concat(prefix.as_str(), sn.as_str());
                let p2 = crate::text::concat(p1.as_str(), ".");
                push_prefixed(out, p2.as_str(), &names);
            },
            None => {
                assert(strs_view(out@) =~= before + f(ss[i as int]));
            },
        }
        proof {
            lemma_concat_map_step(ss, f, i as int);
            assert(strs_view(out@) =~= mid + concat_map(ss.take(i + 1), f));
        }
        i = i + 1;
    }
    proof {
        lemma_concat_map_whole(ss, f);
        assert(strs_view(out@) =~= start + imported_refs(import@, t.node()));
    }
}

/// The references that can be written in an `inherit` inside `context_stage`,
/// including templates in other stages and, among `files`, in imported ones.
pub fn visible_refs(root: &Root, file_path: &str, context_stage: Option<&str>, files: &Vec<SourceTree>) -> (r: Vec<String>)
    ensures
        strs_view(r@) == spec_visible_refs(root.node(), file_path@, opt_ref(context_stage), files@),
{
    let mut refs: Vec<String> = Vec::new();
    let local: Vec<String> = match context_stage {
        Some(stage_name) => stage_template_names(root, stage_name),
        None => Vec::new(),
    };
    assert(strs_view(local@) =~= match opt_ref(context_stage) {
        Some(c) => spec_stage_template_names(root.node(), c),
        None => Seq::empty(),
    });
    let mut k: usize = 0;
    assert(strs_view(refs@) =~= strs_view(local@).take(0));
    while k < local.len()
        invariant
            0 <= k <= local@.len(),
            strs_view(refs@) == strs_view(local@).take(k as int),
        decreases local@.len() - k,
    {
        let ghost before = refs@;
        let c = local[k].clone();
        assert(c@ == local@[k as int]@);
        refs.push(c);
        assert(strs_view(refs@) =~= strs_view(before).push(local@[k as int]@));
        assert(strs_view(refs@) =~= strs_view(local@).take(k + 1));
        k = k + 1;
    }
    assert(strs_view(local@).take(local@.len() as int) =~= strs_view(local@));
    let ghost lv = strs_view(local@);
    // A template in the stage shadows a top-level one of the same name, so
    // the top-level one can't be named from here at all.
    let tops = root.body_items(SyntaxKind::TemplateDef);
    proof {
        lemma_root_items(root, tops@, SyntaxKind::TemplateDef);
    }
    let top_names = names_in(&tops);
    let ghost tn = strs_view(top_names@);
    let ghost m0 = strs_view(refs@);
    let mut j: usize = 0;
    while j < top_names.len()
        invariant
            0 <= j <= top_names@.len(),
            tn == strs_view(top_names@),
            lv == strs_view(local@),
            strs_view(refs@) == m0 + not_in(tn.take(j as int), lv),
        decreases top_names@.len() - j,
    {
        let ghost before = strs_view(refs@);
        assert(tn.take(j + 1).drop_last() =~= tn.take(j as int));
        assert(tn.take(j + 1).last() == top_names@[j as int]@);
        if !contains_name(&local, top_names[j].as_str()) {
            refs.push(top_names[j].clone());
            assert(strs_view(refs@) =~= before + seq![top_names@[j as int]@]);
        }
        assert(strs_view(refs@) =~= m0 + not_in(tn.take(j + 1), lv));
        j = j + 1;
    }
    assert(tn.take(tn.len() as int) =~= tn);
    let ghost m1 = strs_view(refs@);
    let stages = root.body_items(SyntaxKind::Stage);
    proof {
        lemma_root_items(root, stages@, SyntaxKind::Stage);
    }
    let ghost ss = derefs(stages@);
    let ghost f = other_stage_f(root.node(), opt_ref(context_stage));
    let mut i: usize = 0;
    while i < stages.len()
        invariant
            0 <= i <= stages@.len(),
            ss == derefs(stages@),
            ss == stages_of(root.node()),
            f == other_stage_f(root.node(), opt_ref(context_stage)),
            strs_view(refs@) == m1 + concat_map(ss.take(i as int), f),
        decreases stages@.len() - i,
    {
        let ghost before = strs_view(refs@);
        assert(ss[i as int] == *stages@[i as int]);
        match name_of(stages[i]) {
            Some(sn) => {
                let same = match context_stage {
                    Some(c) => str_eq(sn.as_str(), c),
                    None => false,
                };
                if !same {
                    let names = stage_template_names(root, sn.as_str());
                    let prefix = crate::text::concat(sn.as_str(), ".");
                    push_prefixed(&mut refs, prefix.as_str(), &names);
                } else {
                    assert(strs_view(refs@) =~= before + f(ss[i as int]));
                }
            },
            None => {
                assert(strs_view(refs@) =~= before + f(ss[i as int]));
            },
        }
        proof {
            lemma_concat_map_step(ss, f, i as int);
            assert(strs_view(refs@) =~= m1 + concat_map(ss.take(i + 1), f));
        }
        i = i + 1;
    }
    proof {
        lemma_concat_map_whole(ss, f);
    }
    let ghost m2 = strs_view(refs@);
    let decls = root.body_items(SyntaxKind::UseDecl);
    proof {
        lemma_root_items(root, decls@, SyntaxKind::UseDecl);
        reveal_strlit("path");
        assert("path"@ =~= seq_path());
    }
    let ghost sd = derefs(decls@);
    let ghost g = import_refs_f(file_path@, files@);
    let mut d: usize = 0;
    while d < decls.len()
        invariant
            0 <= d <= decls@.len(),
            sd == derefs(decls@),
            sd == spec_root_items(root.node(), SyntaxKind::UseDecl),
            g == import_refs_f(file_path@, files@),
            "path"@ == seq_path(),
            strs_view(refs@) == m2 + concat_map(sd.take(d as int), g),
        decreases decls@.len() - d,
    {
        let ghost before = strs_view(refs@);
        assert(sd[d as int] == *decls@[d as int]);
        match (name_of(decls[d]), attr_scalar(decls[d], "path")) {
            (Some(import_name), Some(location)) => {
                let target = import_target(file_path, location.as_str());
                match find_file(files, target.as_str()) {
                    Some(file) => match Root::cast(file.parse.syntax()) {
                        Some(imported) => {
                            push_imported_refs(&mut refs, import_name.as_str(), &imported);
                        },
                        None => {
                            assert(strs_view(refs@) =~= before + g(sd[d as int]));
                        },
                    },
                    None => {
                        assert(strs_view(refs@) =~= before + g(sd[d as int]));
                    },
                }
            },
            _ => {
                assert(strs_view(refs@) =~= before + g(sd[d as int]));
            },
        }
        proof {
            lemma_concat_map_step(sd, g, d as int);
            assert(strs_view(refs@) =~= m2 + concat_map(sd.take(d + 1), g));
        }
        d = d + 1;
    }
    proof {
        lemma_concat_map_whole(sd, g);
        assert(strs_view(refs@) =~= spec_visible_refs(root.node(), file_path@, opt_ref(context_stage), files@));
    }
    refs
}

} // verus!

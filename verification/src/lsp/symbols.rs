//! The outline of a document: its stages, with their jobs and templates.
use vstd::prelude::*;

use crate::ast::{Root, name_of, name_token, spec_name, spec_name_token};
use crate::cst::{Node, spec_child_node, spec_child_nodes};
use crate::lsp::templates::{derefs, lemma_child_nodes, lemma_root_items, opt_seq, stages_of};
use crate::lsp::{
    Range, concat_map, lemma_concat_map_step, lemma_concat_map_whole, node_range, range_to_lsp, spec_node_range,
    spec_range, spec_token_range, token_range,
};
use crate::parser::Parse;
use crate::syntax::SyntaxKind;

verus! {

/// What a symbol of the outline stands for.
#[derive(Debug, Clone, Copy, PartialEq, Eq, Structural)]
pub enum SymbolKind {
    /// A stage.
    Namespace,
    /// A job.
    Function,
    /// A template.
    Class,
}

/// One entry of the outline.
#[derive(Debug)]
pub struct DocumentSymbol {
    pub name: String,
    pub kind: SymbolKind,
    /// The whole item.
    pub range: Range,
    /// Its name, or the whole item when it has none.
    pub selection_range: Range,
    pub children: Option<Vec<DocumentSymbol>>,
}

/// A symbol as values: its name, kind, range and selection range.
pub type SymView = (Seq<char>, SymbolKind, Range, Range);

pub open spec fn sym_view(s: DocumentSymbol) -> SymView {
    (s.name@, s.kind, s.range, s.selection_range)
}

pub open spec fn sym_views(v: Seq<DocumentSymbol>) -> Seq<SymView> {
    v.map_values(|s: DocumentSymbol| sym_view(s))
}

/// A symbol with its children as values.
pub open spec fn outline_view(s: DocumentSymbol) -> (SymView, Option<Seq<SymView>>) {
    (
        sym_view(s),
        match s.children {
            Some(c) => Some(sym_views(c@)),
            None => None,
        },
    )
}

pub open spec fn outline_views(v: Seq<DocumentSymbol>) -> Seq<(SymView, Option<Seq<SymView>>)> {
    v.map_values(|s: DocumentSymbol| outline_view(s))
}

/// The symbol of the named item `n` of the text `source`.
pub open spec fn spec_symbol(n: Node, kind: SymbolKind, source: Seq<char>) -> Option<SymView> {
    match spec_name(n) {
        Some(name) => {
            let range = spec_range(source, spec_node_range(n));
            Some(
                (
                    name,
                    kind,
                    range,
                    match spec_name_token(n) {
                        Some(t) => spec_range(source, spec_token_range(t)),
                        None => range,
                    },
                ),
            )
        },
        None => None,
    }
}

pub open spec fn symbol_f(kind: SymbolKind, source: Seq<char>) -> spec_fn(Node) -> Seq<SymView> {
    |n: Node| opt_seq(spec_symbol(n, kind, source))
}

/// The symbols of the named jobs, then of the named templates, of a stage.
pub open spec fn stage_children(s: Node, source: Seq<char>) -> Seq<SymView> {
    match spec_child_node(s, SyntaxKind::StageBody) {
        Some(b) => concat_map(spec_child_nodes(b.children@, SyntaxKind::Job), symbol_f(SymbolKind::Function, source))
            + concat_map(spec_child_nodes(b.children@, SyntaxKind::TemplateDef), symbol_f(SymbolKind::Class, source)),
        None => Seq::empty(),
    }
}

pub open spec fn stage_symbol_f(source: Seq<char>) -> spec_fn(Node) -> Seq<(SymView, Option<Seq<SymView>>)> {
    |s: Node| match spec_symbol(s, SymbolKind::Namespace, source) {
        Some(v) => seq![(v, Some(stage_children(s, source)))],
        None => Seq::empty(),
    }
}

/// The outline of the file `root`, whose text is `source`: a symbol for each
/// named stage, holding those of its named jobs and templates.
pub open spec fn spec_collect(root: Node, source: Seq<char>) -> Seq<(SymView, Option<Seq<SymView>>)> {
    if root.kind == SyntaxKind::Root {
        concat_map(stages_of(root), stage_symbol_f(source))
    } else {
        Seq::empty()
    }
}

fn symbol(n: &Node, kind: SymbolKind, source: &str) -> (r: Option<DocumentSymbol>)
    ensures
        match r {
            Some(s) => spec_symbol(*n, kind, source@) == Some(sym_view(s)) && s.children is None,
            None => spec_symbol(*n, kind, source@) is None,
        },
{
    let name = match name_of(n) {
        Some(name) => name,
        None => return None,
    };
    let range = range_to_lsp(source, node_range(n));
    let selection_range = match name_token(n) {
        Some(t) => range_to_lsp(source, token_range(t)),
        None => range,
    };
    Some(DocumentSymbol { name, kind, range, selection_range, children: None })
}

/// Add the symbols of the named ones of `items` to `out`.
fn push_symbols(items: &Vec<&Node>, kind: SymbolKind, source: &str, out: &mut Vec<DocumentSymbol>)
    ensures
        sym_views(final(out)@) == sym_views(old(out)@) + concat_map(derefs(items@), symbol_f(kind, source@)),
{
    let ghost start = sym_views(out@);
    let ghost s = derefs(items@);
    let ghost f = symbol_f(kind, source@);
    let mut i: usize = 0;
    while i < items.len()
        invariant
            0 <= i <= items@.len(),
            s == derefs(items@),
            f == symbol_f(kind, source@),
            sym_views(out@) == start + concat_map(s.take(i as int), f),
        decreases items@.len() - i,
    {
        let ghost before = sym_views(out@);
        assert(s[i as int] == *items@[i as int]);
        match symbol(items[i], kind, source) {
            Some(sym) => {
                let ghost v = sym_view(sym);
                out.push(sym);
                assert(sym_views(out@) =~= before + seq![v]);
            },
            None => {
                assert(sym_views(out@) =~= before + Seq::empty());
            },
        }
        proof {
            lemma_concat_map_step(s, f, i as int);
            assert(sym_views(out@) =~= start + concat_map(s.take(i + 1), f));
        }
        i = i + 1;
    }
    proof {
        lemma_concat_map_whole(s, f);
    }
}

fn stage_sym(stage: &Node, source: &str) -> (r: Option<DocumentSymbol>)
    ensures
        match r {
            Some(s) => spec_symbol(*stage, SymbolKind::Namespace, source@) == Some(sym_view(s)) && outline_view(s).1 == Some(
                stage_children(*stage, source@),
            ),
            None => spec_symbol(*stage, SymbolKind::Namespace, source@) is None,
        },
{
    let mut sym = match symbol(stage, SymbolKind::Namespace, source) {
        Some(s) => s,
        None => return None,
    };
    let mut children: Vec<DocumentSymbol> = Vec::new();
    match stage.child_node(SyntaxKind::StageBody) {
        Some(body) => {
            let jobs = body.child_nodes(SyntaxKind::Job);
            proof {
                lemma_child_nodes(*body, jobs@, SyntaxKind::Job);
            }
            assert(sym_views(children@) =~= Seq::empty());
            push_symbols(&jobs, SymbolKind::Function, source, &mut children);
            let tmpls = body.child_nodes(SyntaxKind::TemplateDef);
            proof {
                lemma_child_nodes(*body, tmpls@, SyntaxKind::TemplateDef);
            }
            push_symbols(&tmpls, SymbolKind::Class, source, &mut children);
            assert(sym_views(children@) =~= stage_children(*stage, source@));
        },
        None => {
            assert(sym_views(children@) =~= stage_children(*stage, source@));
        },
    }
    sym.children = Some(children);
    Some(sym)
}

/// The outline of a parsed document whose text is `source`.
pub fn collect(parse: &Parse, source: &str) -> (r: Vec<DocumentSymbol>)
    ensures
        outline_views(r@) == spec_collect(parse.tree(), source@),
{
    let mut out: Vec<DocumentSymbol> = Vec::new();
    let root = match Root::cast(parse.syntax()) {
        Some(root) => root,
        None => {
            assert(outline_views(out@) =~= spec_collect(parse.tree(), source@));
            return out;
        },
    };
    let stages = root.body_items(SyntaxKind::Stage);
    proof {
        lemma_root_items(&root, stages@, SyntaxKind::Stage);
    }
    let ghost ss = derefs(stages@);
    let ghost f = stage_symbol_f(source@);
    let mut i: usize = 0;
    while i < stages.len()
        invariant
            0 <= i <= stages@.len(),
            ss == derefs(stages@),
            ss == stages_of(parse.tree()),
            f == stage_symbol_f(source@),
            outline_views(out@) == concat_map(ss.take(i as int), f),
        decreases stages@.len() - i,
    {
        let ghost before = outline_views(out@);
        assert(ss[i as int] == *stages@[i as int]);
        match stage_sym(stages[i], source) {
            Some(sym) => {
                let ghost v = outline_view(sym);
                out.push(sym);
                assert(outline_views(out@) =~= before + seq![v]);
            },
            None => {
                assert(outline_views(out@) =~= before + Seq::empty());
            },
        }
        proof {
            lemma_concat_map_step(ss, f, i as int);
            assert(outline_views(out@) =~= concat_map(ss.take(i + 1), f));
        }
        i = i + 1;
    }
    proof {
        lemma_concat_map_whole(ss, f);
    }
    out
}

} // verus!

//! What the editor shows for a whole document: its diagnostics, and the
//! edit that formats it.
use vstd::prelude::*;

use crate::ast::{AstNode, Root};
use crate::cst::Node;
use crate::formatter::spec_format;
use crate::lsp::rename::{EditView, TextEdit, opt_edits};
use crate::lsp::{Position, Range, TextRange, range_to_lsp, spec_position, spec_range};
use crate::parser::{Parse, ParseError};
use crate::syntax::SyntaxKind;
use crate::text::str_eq;
use crate::validation::{Severity, models, spec_validate, validate};

verus! {

/// A diagnostic as the editor shows it: its range in lines and columns.
#[derive(Debug)]
pub struct DocumentDiagnostic {
    pub range: Range,
    pub severity: Severity,
    pub message: String,
}

pub type DocDiagView = (Range, Severity, Seq<char>);

pub open spec fn doc_diag_view(d: DocumentDiagnostic) -> DocDiagView {
    (d.range, d.severity, d.message@)
}

pub open spec fn doc_diags_view(v: Seq<DocumentDiagnostic>) -> Seq<DocDiagView> {
    v.map_values(|d: DocumentDiagnostic| doc_diag_view(d))
}

/// The parse errors as error diagnostics of the document `source`.
pub open spec fn parse_error_diags(source: Seq<char>, errs: Seq<ParseError>) -> Seq<DocDiagView> {
    errs.map_values(|e: ParseError| (spec_range(source, TextRange { start: e.span.start, end: e.span.end }), Severity::Error, e.message@))
}

/// The validation diagnostics of the tree `tree` of the document `source`:
/// none unless it is a file's tree.
pub open spec fn validation_diags(source: Seq<char>, tree: Node) -> Seq<DocDiagView> {
    if tree.kind == SyntaxKind::Root {
        spec_validate(tree).map_values(|d: (Severity, Seq<char>, usize, usize)| (
            spec_range(source, TextRange { start: d.2, end: d.3 }),
            d.0,
            d.1,
        ))
    } else {
        Seq::empty()
    }
}

/// The diagnostics of the parsed document `source`: its parse errors, then
/// what validating its tree finds.
pub fn collect_diagnostics(parse: &Parse, source: &str) -> (r: Vec<DocumentDiagnostic>)
    ensures
        doc_diags_view(r@) == parse_error_diags(source@, parse.error_list()) + validation_diags(source@, parse.tree()),
{
    let errs = parse.errors();
    let mut out: Vec<DocumentDiagnostic> = Vec::new();
    let mut i: usize = 0;
    while i < errs.len()
        invariant
            0 <= i <= errs@.len(),
            errs@ == parse.error_list(),
            doc_diags_view(out@) == parse_error_diags(source@, errs@.take(i as int)),
        decreases errs@.len() - i,
    {
        let ghost before = doc_diags_view(out@);
        let range = range_to_lsp(source, TextRange { start: errs[i].span.start, end: errs[i].span.end });
        out.push(DocumentDiagnostic { range, severity: Severity::Error, message: errs[i].message.clone() });
        proof {
            assert(errs@.take(i + 1) =~= errs@.take(i as int).push(errs@[i as int]));
            assert(doc_diags_view(out@) =~= before.push(doc_diag_view(out@.last())));
            assert(parse_error_diags(source@, errs@.take(i + 1)) =~= parse_error_diags(source@, errs@.take(i as int)).push(
                (spec_range(source@, TextRange { start: errs@[i as int].span.start, end: errs@[i as int].span.end }), Severity::Error, errs@[i as int].message@),
            ));
        }
        i = i + 1;
    }
    assert(errs@.take(errs@.len() as int) =~= errs@);
    let ghost n = out@.len();
    let ghost head = doc_diags_view(out@);
    match Root::cast(parse.syntax()) {
        Some(root) => {
            let v = validate(&root);
            let ghost vm = models(v@);
            let mut k: usize = 0;
            while k < v.len()
                invariant
                    0 <= k <= v@.len(),
                    vm == models(v@),
                    vm == spec_validate(parse.tree()),
                    doc_diags_view(out@) == head + vm.take(k as int).map_values(|d: (Severity, Seq<char>, usize, usize)| (
                        spec_range(source@, TextRange { start: d.2, end: d.3 }),
                        d.0,
                        d.1,
                    )),
                decreases v@.len() - k,
            {
                let ghost before = doc_diags_view(out@);
                let range = range_to_lsp(source, TextRange { start: v[k].span.start, end: v[k].span.end });
                out.push(DocumentDiagnostic { range, severity: v[k].severity, message: v[k].message.clone() });
                proof {
                    assert(vm[k as int] == crate::validation::model(v@[k as int]));
                    assert(vm.take(k + 1) =~= vm.take(k as int).push(vm[k as int]));
                    assert(doc_diags_view(out@) =~= before.push(doc_diag_view(out@.last())));
                }
                k = k + 1;
            }
            assert(vm.take(vm.len() as int) =~= vm);
            assert(doc_diags_view(out@) =~= head + validation_diags(source@, parse.tree()));
        },
        None => {
            assert(doc_diags_view(out@) =~= head + validation_diags(source@, parse.tree()));
        },
    }
    out
}

/// The edits that format the parsed document `source`: none when it is
/// already formatted, one that replaces the whole text otherwise, and no
/// answer when it can't be formatted.
pub open spec fn spec_edits(tree: Node, source: Seq<char>) -> Option<Seq<EditView>> {
    if tree.kind != SyntaxKind::Root {
        None
    } else {
        match spec_format(tree) {
            Err(_) => None,
            Ok(t) => if t == source {
                Some(Seq::empty())
            } else {
                Some(seq![(Range { start: Position { line: 0, character: 0 }, end: spec_position(source, source.len() as int) }, t)])
            },
        }
    }
}

/// Returns a whole-document edit with the formatted text, no edit if the
/// document is already canonical, or nothing if it can't be formatted (a
/// `defaults` block, for one).
pub fn edits(parse: &Parse, source: &str) -> (r: Option<Vec<TextEdit>>)
    ensures
        opt_edits(r) == spec_edits(parse.tree(), source@),
{
    let root = match Root::cast(parse.syntax()) {
        Some(r) => r,
        None => return None,
    };
    let formatted = match crate::formatter::format(&root) {
        Ok(f) => f,
        Err(_) => return None,
    };
    if str_eq(formatted.as_str(), source) {
        let none: Vec<TextEdit> = Vec::new();
        assert(crate::lsp::rename::edits_view(none@) =~= Seq::empty());
        return Some(none);
    }
    let end = crate::lsp::offset_to_position(source, crate::text::chars_of(source).len());
    let range = Range { start: Position { line: 0, character: 0 }, end };
    let mut v: Vec<TextEdit> = Vec::new();
    v.push(TextEdit { range, new_text: formatted });
    proof {
        assert(crate::lsp::rename::edits_view(v@) =~= seq![(range, formatted@)]);
    }
    Some(v)
}

} // verus!

use vstd::prelude::*;

use crate::builder::Builder;
use crate::cst::{Node, TreeEvent, node_text, tree_events};
use crate::lexer::{LexMode, LexView, LexerHandle, lex_measure, lex_step, span_view};
use crate::syntax::SyntaxKind;
use crate::text::{chars_of, concat, substring};

verus! {

/// An error produced during parsing, before semantic validation.
#[derive(Debug)]
pub struct ParseError {
    pub message: String,
    /// The characters `start..end` of the source the error points at.
    ///
    /// Offsets count characters (Unicode scalar values), not UTF-8 bytes:
    /// the source is read as a sequence of characters throughout, so for
    /// text outside ASCII these are smaller than byte offsets would be.
    pub span: std::ops::Range<usize>,
}

/// The result of parsing a `ciane` source file.
///
/// Always contains a complete tree (even when errors occurred) because the
/// parser recovers from errors rather than aborting.
pub struct Parse {
    root: Node,
    errors: Vec<ParseError>,
}

impl Parse {
    pub closed spec fn tree(&self) -> Node {
        self.root
    }

    pub closed spec fn error_list(&self) -> Seq<ParseError> {
        self.errors@
    }

    /// The root node of the concrete syntax tree.
    pub fn syntax(&self) -> (r: &Node)
        ensures
            *r == self.tree(),
    {
        &self.root
    }

    /// The parse errors collected during parsing.
    pub fn errors(&self) -> (r: &Vec<ParseError>)
        ensures
            r@ == self.error_list(),
    {
        &self.errors
    }

    /// `true` if no errors were produced.
    pub fn is_ok(&self) -> (r: bool)
        ensures
            r == (self.error_list().len() == 0),
    {
        self.errors.len() == 0
    }
}

/// Parse a `ciane` source string.
///
/// The tree is lossless: its text is exactly the source. The tree and the
/// errors are the ones [`parse_run`] describes: the parser's run over the
/// source, token by token, with its error recovery.
pub fn parse(source: &str) -> (r: Parse)
    ensures
        tree_events(r.tree()) == parse_events(source@),
        errors_view(r.error_list()) == parse_errors(source@),
        node_text(r.tree()) == source@,
        r.tree().kind == SyntaxKind::Root,
        r.tree().start == 0,
        r.tree().end == source@.len(),
{
    let mut p = Parser::new(source);
    root(&mut p);
    p.finish()
}

/// `items` are spans laid end to end, from `from` to `to`.
pub open spec fn chain(items: Seq<(SyntaxKind, usize, usize)>, from: int, to: int) -> bool {
    if items.len() == 0 {
        from == to
    } else {
        &&& items[0].1 == from
        &&& items.last().2 == to
        &&& forall|i: int| 0 <= i < items.len() ==> #[trigger] items[i].1 <= items[i].2
        &&& forall|i: int| 0 <= i < items.len() - 1 ==> #[trigger] items[i].2 == items[i + 1].1
    }
}

pub open spec fn spec_is_keyword(k: SyntaxKind) -> bool {
    k == SyntaxKind::KwUse || k == SyntaxKind::KwStage || k == SyntaxKind::KwJob
        || k == SyntaxKind::KwStep || k == SyntaxKind::KwSteps || k == SyntaxKind::KwTemplate
        || k == SyntaxKind::KwWorkflow || k == SyntaxKind::KwDefaults
}

/// `true` if `k` is a keyword kind.
pub fn is_keyword(k: SyntaxKind) -> (r: bool)
    ensures
        r == spec_is_keyword(k),
{
    match k {
        SyntaxKind::KwUse | SyntaxKind::KwStage | SyntaxKind::KwJob | SyntaxKind::KwStep
        | SyntaxKind::KwSteps | SyntaxKind::KwTemplate | SyntaxKind::KwWorkflow
        | SyntaxKind::KwDefaults => true,
        _ => false,
    }
}

/// A token after which the parser may switch the lexer to another mode.
pub open spec fn opens_mode(k: SyntaxKind) -> bool {
    k == SyntaxKind::LBrace || k == SyntaxKind::LBracket || k == SyntaxKind::Comma
}

// ─── the parser's run, as plain values ───────────────────────────────────────

/// Where the parser stands: the lexer, the current token, the trivia read
/// before it, what has been handed to the tree builder (and how many
/// characters), the errors so far, and the two mode signals.
#[verifier::ext_equal]
pub struct ParseState {
    pub lex: LexView,
    pub cur: Option<(SyntaxKind, int, int)>,
    pub trivia: Seq<(SyntaxKind, int, int)>,
    pub events: Seq<TreeEvent>,
    pub emitted: int,
    pub errors: Seq<(Seq<char>, int, int)>,
    pub shell: bool,
    pub path: bool,
}

/// A parse error as its message and span.
pub open spec fn error_view(e: ParseError) -> (Seq<char>, int, int) {
    (e.message@, e.span.start as int, e.span.end as int)
}

pub open spec fn errors_view(es: Seq<ParseError>) -> Seq<(Seq<char>, int, int)> {
    es.map_values(|e: ParseError| error_view(e))
}

pub open spec fn spans_view(ts: Seq<(SyntaxKind, usize, usize)>) -> Seq<(SyntaxKind, int, int)> {
    ts.map_values(|t: (SyntaxKind, usize, usize)| (t.0, t.1 as int, t.2 as int))
}

/// The kind of the current token, `Eof` at the end.
pub open spec fn kind_at(v: ParseState) -> SyntaxKind {
    match v.cur {
        None => SyntaxKind::Eof,
        Some((k, _, _)) => k,
    }
}

/// Where the current token starts (the lexer's position at the end).
pub open spec fn cur_start_of(v: ParseState) -> int {
    match v.cur {
        None => v.lex.pos,
        Some((_, st, _)) => st,
    }
}

/// Where the current token ends (the end of the input at the end).
pub open spec fn cur_end_of(s: Seq<char>, v: ParseState) -> int {
    match v.cur {
        None => s.len() as int,
        Some((_, _, en)) => en,
    }
}

/// Decreases with every token the parser consumes.
pub open spec fn pmeasure(s: Seq<char>, v: ParseState) -> nat {
    match v.cur {
        None => lex_measure(s, v.lex),
        Some((k, _, _)) => lex_measure(s, v.lex) + (if opens_mode(k) { 3nat } else { 0nat }) + 1,
    }
}

/// The state before anything is read.
pub open spec fn initial_state() -> ParseState {
    ParseState {
        lex: LexView { pos: 0, mode: LexMode::Normal, shell_depth: 0, paren_depth: 0 },
        cur: None,
        trivia: Seq::empty(),
        events: Seq::empty(),
        emitted: 0,
        errors: Seq::empty(),
        shell: false,
        path: false,
    }
}

/// Read trivia until the next token that is not trivia, or the end. (The
/// lexer moves on with every token it reads, so the last branch, where it
/// would not, is never taken; it keeps the definition total.)
pub open spec fn st_advance(s: Seq<char>, v: ParseState) -> ParseState
    decreases lex_measure(s, v.lex),
{
    let (t, l2) = lex_step(s, v.lex);
    match t {
        None => ParseState { lex: l2, cur: None, ..v },
        Some((k, st, en)) => if k.spec_is_trivia() {
            if lex_measure(s, l2) < lex_measure(s, v.lex) {
                st_advance(s, ParseState { lex: l2, trivia: v.trivia.push((k, st, en)), ..v })
            } else {
                ParseState { lex: l2, trivia: v.trivia.push((k, st, en)), ..v }
            }
        } else {
            ParseState { lex: l2, cur: Some((k, st, en)), ..v }
        },
    }
}

/// Tokens handed to the builder, in order.
pub open spec fn leaves(s: Seq<char>, ts: Seq<(SyntaxKind, int, int)>) -> Seq<TreeEvent>
    decreases ts.len(),
{
    if ts.len() == 0 {
        Seq::empty()
    } else {
        leaves(s, ts.drop_last()).push(
            TreeEvent::Leaf(ts.last().0, ts.last().1, s.subrange(ts.last().1, ts.last().2)),
        )
    }
}

/// Hand the pending trivia to the builder.
pub open spec fn st_flush(s: Seq<char>, v: ParseState) -> ParseState {
    ParseState { events: v.events + leaves(s, v.trivia), emitted: cur_start_of(v), trivia: Seq::empty(), ..v }
}

/// Flush, hand the current token to the builder, switch the lexer's mode
/// where a signal asks for it, and read on.
pub open spec fn st_bump(s: Seq<char>, v: ParseState) -> ParseState {
    let v1 = st_flush(s, v);
    let v2 = match v1.cur {
        None => v1,
        Some((k, st, en)) => {
            let sh = v1.shell && k == SyntaxKind::LBrace;
            let lex1 = if sh { LexView { mode: LexMode::Shell, shell_depth: 0, ..v1.lex } } else { v1.lex };
            let lex2 = if v1.path && (k == SyntaxKind::LBracket || k == SyntaxKind::Comma) {
                LexView { mode: LexMode::PathItem, ..lex1 }
            } else {
                lex1
            };
            ParseState {
                cur: None,
                events: v1.events.push(TreeEvent::Leaf(k, st, s.subrange(st, en))),
                emitted: en,
                lex: lex2,
                shell: if sh { false } else { v1.shell },
                ..v1
            }
        },
    };
    st_advance(s, ParseState { path: false, ..v2 })
}

/// Record an error with message `msg` at the current token.
pub open spec fn st_error(s: Seq<char>, v: ParseState, msg: Seq<char>) -> ParseState {
    ParseState { errors: v.errors.push((msg, cur_start_of(v), cur_end_of(s, v))), ..v }
}

/// The message for a token of kind `found` where one of kind `kind` belongs.
pub open spec fn expected_message(kind: SyntaxKind, found: SyntaxKind) -> Seq<char> {
    "expected "@ + kind.spec_kind_name() + ", found "@ + found.spec_kind_name()
}

/// Consume a token of kind `kind`, or record that it is missing.
pub open spec fn st_expect(s: Seq<char>, v: ParseState, kind: SyntaxKind) -> ParseState {
    if kind_at(v) == kind {
        st_bump(s, v)
    } else {
        st_error(s, v, expected_message(kind, kind_at(v)))
    }
}

/// Consume a token of kind `kind` if it is the current one.
pub open spec fn st_eat_opt(s: Seq<char>, v: ParseState, kind: SyntaxKind) -> ParseState {
    if kind_at(v) == kind {
        st_bump(s, v)
    } else {
        v
    }
}

/// Flush the trivia, then open a node of kind `kind`.
pub open spec fn st_start(s: Seq<char>, v: ParseState, kind: SyntaxKind) -> ParseState {
    let v1 = st_flush(s, v);
    ParseState { events: v1.events.push(TreeEvent::Open(kind, v1.emitted)), ..v1 }
}

/// Flush the trivia, then close the innermost node.
pub open spec fn st_finish(s: Seq<char>, v: ParseState) -> ParseState {
    let v1 = st_flush(s, v);
    ParseState { events: v1.events.push(TreeEvent::Close(v1.emitted)), ..v1 }
}

/// Record an error, and wrap the current token, if any, in an error node.
pub open spec fn st_error_bump(s: Seq<char>, v: ParseState, msg: Seq<char>) -> ParseState {
    let v1 = st_start(s, st_error(s, v, msg), SyntaxKind::ErrorNode);
    let v2 = if kind_at(v1) != SyntaxKind::Eof { st_bump(s, v1) } else { v1 };
    st_finish(s, v2)
}

// ─── the grammar, as plain values ────────────────────────────────────────────

// Each `g_` function is what the parsing function of the same name (without
// the prefix) does to the parser's state; a `_loop` function is the loop of
// that rule, repeated while the parser consumes input.

#[verifier::opaque]
pub open spec fn g_name(s: Seq<char>, v: ParseState) -> ParseState {
    let v1 = st_start(s, v, SyntaxKind::Name);
    let v2 = if kind_at(v1) == SyntaxKind::Ident {
        st_bump(s, v1)
    } else {
        st_error(s, v1, "expected identifier for name"@)
    };
    st_finish(s, v2)
}

#[verifier::opaque]
pub open spec fn g_steps_keyword(s: Seq<char>, v: ParseState) -> ParseState {
    let v1 = st_bump(s, st_start(s, v, SyntaxKind::StepsKeyword));
    st_finish(s, st_eat_opt(s, v1, SyntaxKind::Comma))
}

/// A `{ shell }` body: the `{` switches the lexer to shell mode.
#[verifier::opaque]
pub open spec fn g_shell_block(s: Seq<char>, v: ParseState) -> ParseState {
    let a = st_bump(s, ParseState { shell: true, ..v });
    let b = if kind_at(a) == SyntaxKind::ShellBody { st_bump(s, a) } else { a };
    st_expect(s, b, SyntaxKind::RBrace)
}

#[verifier::opaque]
pub open spec fn g_step_item(s: Seq<char>, v: ParseState) -> ParseState {
    let v1 = g_name(s, st_bump(s, st_start(s, v, SyntaxKind::Step)));
    let k = kind_at(v1);
    let v2 = if k == SyntaxKind::LBrace {
        g_shell_block(s, v1)
    } else if k == SyntaxKind::Comma {
        st_bump(s, v1)
    } else if k == SyntaxKind::RBracket || k == SyntaxKind::KwStep || k == SyntaxKind::KwSteps
        || k == SyntaxKind::KwTemplate {
        v1
    } else {
        st_error(s, v1, "expected `{` for step body or `,` for step reference"@)
    };
    st_finish(s, v2)
}

#[verifier::opaque]
pub open spec fn g_steps_loop(s: Seq<char>, v: ParseState) -> ParseState
    decreases pmeasure(s, v),
{
    let k = kind_at(v);
    if k == SyntaxKind::RBracket || k == SyntaxKind::Eof {
        v
    } else {
        let v1 = if k == SyntaxKind::KwSteps {
            g_steps_keyword(s, v)
        } else if k == SyntaxKind::KwStep {
            g_step_item(s, v)
        } else if k == SyntaxKind::Comma {
            st_bump(s, v)
        } else {
            st_error_bump(s, v, "expected `step`, `steps`, or `]`"@)
        };
        if pmeasure(s, v1) < pmeasure(s, v) { g_steps_loop(s, v1) } else { v1 }
    }
}

#[verifier::opaque]
pub open spec fn g_job_body_steps(s: Seq<char>, v: ParseState) -> ParseState {
    let v1 = st_expect(s, st_start(s, v, SyntaxKind::JobBodySteps), SyntaxKind::LBracket);
    st_finish(s, st_expect(s, g_steps_loop(s, v1), SyntaxKind::RBracket))
}

#[verifier::opaque]
pub open spec fn g_job_body_inline(s: Seq<char>, v: ParseState) -> ParseState {
    st_finish(s, g_shell_block(s, st_start(s, v, SyntaxKind::JobBodyInline)))
}

#[verifier::opaque]
pub open spec fn g_path_loop(s: Seq<char>, v: ParseState) -> ParseState
    decreases pmeasure(s, v),
{
    let k = kind_at(v);
    if k == SyntaxKind::RBracket || k == SyntaxKind::Eof {
        v
    } else {
        let v1 = if k == SyntaxKind::PathValue {
            st_finish(s, st_bump(s, st_start(s, v, SyntaxKind::PathItem)))
        } else if k == SyntaxKind::Comma {
            st_bump(s, ParseState { path: true, ..v })
        } else {
            st_error_bump(s, v, "expected a path, `,` or `]`"@)
        };
        if pmeasure(s, v1) < pmeasure(s, v) { g_path_loop(s, v1) } else { v1 }
    }
}

#[verifier::opaque]
pub open spec fn g_path_list(s: Seq<char>, v: ParseState) -> ParseState {
    let v1 = st_start(s, v, SyntaxKind::PathList);
    let v2 = st_bump(s, ParseState { path: true, ..v1 });
    st_finish(s, st_expect(s, g_path_loop(s, v2), SyntaxKind::RBracket))
}

#[verifier::opaque]
pub open spec fn g_return_annotation(s: Seq<char>, v: ParseState) -> ParseState {
    let v1 = st_bump(s, st_start(s, v, SyntaxKind::ReturnAnnotation));
    let v2 = if kind_at(v1) == SyntaxKind::LBracket {
        g_path_list(s, v1)
    } else {
        st_error(s, v1, "expected `[` after `->`"@)
    };
    st_finish(s, v2)
}

#[verifier::opaque]
pub open spec fn g_ref_loop(s: Seq<char>, v: ParseState) -> ParseState
    decreases pmeasure(s, v),
{
    if kind_at(v) == SyntaxKind::Dot || kind_at(v) == SyntaxKind::Slash {
        let a = st_bump(s, v);
        if kind_at(a) == SyntaxKind::Ident {
            let b = st_bump(s, a);
            if pmeasure(s, b) < pmeasure(s, v) { g_ref_loop(s, b) } else { b }
        } else {
            st_error(s, a, "expected identifier after `.` or `/`"@)
        }
    } else {
        v
    }
}

#[verifier::opaque]
pub open spec fn g_reference(s: Seq<char>, v: ParseState) -> ParseState {
    let v1 = st_expect(s, st_start(s, v, SyntaxKind::Ref), SyntaxKind::Ident);
    st_finish(s, g_ref_loop(s, v1))
}

#[verifier::opaque]
pub open spec fn g_ref_list_loop(s: Seq<char>, v: ParseState) -> ParseState
    decreases pmeasure(s, v),
{
    let k = kind_at(v);
    if k == SyntaxKind::RBracket || k == SyntaxKind::Eof {
        v
    } else {
        let v1 = if k == SyntaxKind::Ident {
            st_eat_opt(s, g_reference(s, v), SyntaxKind::Comma)
        } else if k == SyntaxKind::Comma {
            st_bump(s, v)
        } else {
            st_error_bump(s, v, "expected identifier in reference list"@)
        };
        if pmeasure(s, v1) < pmeasure(s, v) { g_ref_list_loop(s, v1) } else { v1 }
    }
}

#[verifier::opaque]
pub open spec fn g_ref_list(s: Seq<char>, v: ParseState) -> ParseState {
    let v1 = st_expect(s, st_start(s, v, SyntaxKind::RefList), SyntaxKind::LBracket);
    st_finish(s, st_expect(s, g_ref_list_loop(s, v1), SyntaxKind::RBracket))
}

#[verifier::opaque]
pub open spec fn g_attr_value(s: Seq<char>, v: ParseState) -> ParseState {
    let v1 = st_start(s, v, SyntaxKind::AttrValue);
    let v2 = if kind_at(v1) == SyntaxKind::LBracket {
        g_ref_list(s, v1)
    } else if kind_at(v1) == SyntaxKind::BareValue {
        st_bump(s, v1)
    } else {
        st_error(s, v1, "expected attribute value"@)
    };
    st_finish(s, v2)
}

#[verifier::opaque]
pub open spec fn g_attr(s: Seq<char>, v: ParseState) -> ParseState {
    let v1 = st_expect(s, st_bump(s, st_start(s, v, SyntaxKind::Attr)), SyntaxKind::Eq);
    st_finish(s, st_eat_opt(s, g_attr_value(s, v1), SyntaxKind::Comma))
}

#[verifier::opaque]
pub open spec fn g_attr_loop(s: Seq<char>, v: ParseState) -> ParseState
    decreases pmeasure(s, v),
{
    let k = kind_at(v);
    if k == SyntaxKind::RParen || k == SyntaxKind::Eof {
        v
    } else {
        let v1 = if k == SyntaxKind::Ident || spec_is_keyword(k) {
            g_attr(s, v)
        } else if k == SyntaxKind::Comma {
            st_bump(s, v)
        } else {
            st_error_bump(s, v, "expected attribute name or `)`"@)
        };
        if pmeasure(s, v1) < pmeasure(s, v) { g_attr_loop(s, v1) } else { v1 }
    }
}

#[verifier::opaque]
pub open spec fn g_attr_list_body(s: Seq<char>, v: ParseState) -> ParseState {
    let v1 = st_expect(s, st_start(s, v, SyntaxKind::AttrList), SyntaxKind::LParen);
    st_finish(s, st_expect(s, g_attr_loop(s, v1), SyntaxKind::RParen))
}

/// `( … )` when the current token opens one.
#[verifier::opaque]
pub open spec fn g_opt_attrs(s: Seq<char>, v: ParseState) -> ParseState {
    if kind_at(v) == SyntaxKind::LParen { g_attr_list_body(s, v) } else { v }
}

#[verifier::opaque]
pub open spec fn g_template_def(s: Seq<char>, v: ParseState) -> ParseState {
    let v1 = g_opt_attrs(s, g_name(s, st_bump(s, st_start(s, v, SyntaxKind::TemplateDef))));
    let v2 = if kind_at(v1) == SyntaxKind::LBracket { g_job_body_steps(s, v1) } else { v1 };
    let v3 = if kind_at(v2) == SyntaxKind::Arrow { g_return_annotation(s, v2) } else { v2 };
    st_finish(s, v3)
}

#[verifier::opaque]
pub open spec fn g_job(s: Seq<char>, v: ParseState) -> ParseState {
    let v1 = g_opt_attrs(s, g_name(s, st_bump(s, st_start(s, v, SyntaxKind::Job))));
    let v2 = if kind_at(v1) == SyntaxKind::LBrace {
        g_job_body_inline(s, v1)
    } else if kind_at(v1) == SyntaxKind::LBracket {
        g_job_body_steps(s, v1)
    } else {
        st_error_bump(s, v1, "expected `{` or `[` for job body"@)
    };
    let v3 = if kind_at(v2) == SyntaxKind::Arrow { g_return_annotation(s, v2) } else { v2 };
    st_finish(s, v3)
}

#[verifier::opaque]
pub open spec fn g_stage_loop(s: Seq<char>, v: ParseState) -> ParseState
    decreases pmeasure(s, v),
{
    let k = kind_at(v);
    if k == SyntaxKind::RBrace || k == SyntaxKind::Eof {
        v
    } else {
        let v1 = if k == SyntaxKind::KwJob {
            g_job(s, v)
        } else if k == SyntaxKind::KwTemplate {
            g_template_def(s, v)
        } else {
            st_error_bump(s, v, "expected `job` or `template`"@)
        };
        if pmeasure(s, v1) < pmeasure(s, v) { g_stage_loop(s, v1) } else { v1 }
    }
}

#[verifier::opaque]
pub open spec fn g_stage_body(s: Seq<char>, v: ParseState) -> ParseState {
    let v1 = st_expect(s, st_start(s, v, SyntaxKind::StageBody), SyntaxKind::LBrace);
    st_finish(s, st_expect(s, g_stage_loop(s, v1), SyntaxKind::RBrace))
}

#[verifier::opaque]
pub open spec fn g_stage(s: Seq<char>, v: ParseState) -> ParseState {
    let v1 = g_opt_attrs(s, g_name(s, st_bump(s, st_start(s, v, SyntaxKind::Stage))));
    st_finish(s, g_stage_body(s, v1))
}

#[verifier::opaque]
pub open spec fn g_use_loop(s: Seq<char>, v: ParseState) -> ParseState
    decreases pmeasure(s, v),
{
    let k = kind_at(v);
    if k == SyntaxKind::RBrace || k == SyntaxKind::Eof {
        v
    } else {
        let v1 = if k == SyntaxKind::KwWorkflow {
            st_finish(s, g_opt_attrs(s, st_bump(s, st_start(s, v, SyntaxKind::WorkflowImport))))
        } else if k == SyntaxKind::Comma {
            st_bump(s, v)
        } else {
            st_error_bump(s, v, "expected `workflow` import or `}`"@)
        };
        if pmeasure(s, v1) < pmeasure(s, v) { g_use_loop(s, v1) } else { v1 }
    }
}

#[verifier::opaque]
pub open spec fn g_use_block(s: Seq<char>, v: ParseState) -> ParseState {
    st_expect(s, g_use_loop(s, st_expect(s, v, SyntaxKind::LBrace)), SyntaxKind::RBrace)
}

#[verifier::opaque]
pub open spec fn g_use_decl(s: Seq<char>, v: ParseState) -> ParseState {
    let v1 = st_bump(s, st_start(s, v, SyntaxKind::UseDecl));
    let v2 = if kind_at(v1) == SyntaxKind::LBrace { g_use_block(s, v1) } else { g_opt_attrs(s, g_name(s, v1)) };
    st_finish(s, v2)
}

#[verifier::opaque]
pub open spec fn g_workflow_item(s: Seq<char>, v: ParseState) -> ParseState {
    let k = kind_at(v);
    if k == SyntaxKind::KwUse {
        g_use_decl(s, v)
    } else if k == SyntaxKind::KwStage {
        g_stage(s, v)
    } else if k == SyntaxKind::KwTemplate {
        g_template_def(s, v)
    } else if k == SyntaxKind::KwDefaults {
        st_finish(s, g_opt_attrs(s, st_bump(s, st_start(s, v, SyntaxKind::AttrList))))
    } else {
        st_error_bump(s, v, "expected `use`, `stage`, `template`, or end of workflow"@)
    }
}

#[verifier::opaque]
pub open spec fn g_workflow_loop(s: Seq<char>, v: ParseState, braced: bool) -> ParseState
    decreases pmeasure(s, v),
{
    if kind_at(v) == SyntaxKind::Eof || (braced && kind_at(v) == SyntaxKind::RBrace) {
        v
    } else {
        let v1 = g_workflow_item(s, v);
        if pmeasure(s, v1) < pmeasure(s, v) { g_workflow_loop(s, v1, braced) } else { v1 }
    }
}

#[verifier::opaque]
pub open spec fn g_workflow_body(s: Seq<char>, v: ParseState) -> ParseState {
    let v1 = st_start(s, v, SyntaxKind::WorkflowBody);
    let braced = kind_at(v1) == SyntaxKind::LBrace;
    let v2 = if braced { st_bump(s, v1) } else { v1 };
    let v3 = g_workflow_loop(s, v2, braced);
    let v4 = if braced { st_expect(s, v3, SyntaxKind::RBrace) } else { v3 };
    st_finish(s, v4)
}

#[verifier::opaque]
pub open spec fn g_workflow_def(s: Seq<char>, v: ParseState) -> ParseState {
    let v1 = g_opt_attrs(s, g_name(s, st_bump(s, st_start(s, v, SyntaxKind::WorkflowDef))));
    st_finish(s, g_workflow_body(s, v1))
}

#[verifier::opaque]
pub open spec fn g_root_loop(s: Seq<char>, v: ParseState) -> ParseState
    decreases pmeasure(s, v),
{
    if kind_at(v) == SyntaxKind::Eof {
        v
    } else {
        let v1 = if kind_at(v) == SyntaxKind::KwWorkflow {
            g_workflow_def(s, v)
        } else {
            st_error_bump(s, v, "expected `workflow` or end of file"@)
        };
        if pmeasure(s, v1) < pmeasure(s, v) { g_root_loop(s, v1) } else { v1 }
    }
}

#[verifier::opaque]
pub open spec fn g_root(s: Seq<char>, v: ParseState) -> ParseState {
    let v1 = st_flush(s, ParseState { events: v.events.push(TreeEvent::Open(SyntaxKind::Root, v.emitted)), ..v });
    g_root_loop(s, v1)
}

/// The whole run of the parser over `s`.
pub open spec fn parse_run(s: Seq<char>) -> ParseState {
    st_finish(s, g_root(s, st_advance(s, initial_state())))
}

/// `tree` is the tree [`parse`] builds from `s`.
pub open spec fn parses_to(s: Seq<char>, tree: Node) -> bool {
    &&& tree_events(tree) == parse_events(s)
    &&& node_text(tree) == s
    &&& tree.kind == SyntaxKind::Root
}

/// The tree [`parse`] builds from `s`, written out as events.
pub open spec fn parse_events(s: Seq<char>) -> Seq<TreeEvent> {
    parse_run(s).events
}

/// The errors [`parse`] reports on `s`, in order, as messages and spans.
pub open spec fn parse_errors(s: Seq<char>) -> Seq<(Seq<char>, int, int)> {
    parse_run(s).errors
}

/// A recursive-descent parser that drives the lexer token by token and
/// builds a lossless tree.
struct Parser {
    src: Vec<char>,
    lexer: LexerHandle,
    /// The current (peeked) non-trivia token; `None` at the end of the input.
    current: Option<(SyntaxKind, usize, usize)>,
    /// Trivia tokens that precede the current token.
    pending_trivia: Vec<(SyntaxKind, usize, usize)>,
    builder: Builder,
    errors: Vec<ParseError>,
    /// When set, emitting the next `{` switches the lexer to shell mode.
    pending_shell: bool,
    /// When set, emitting the next `[` or `,` switches the lexer to read one
    /// item of a path list.
    pending_path_item: bool,
    /// The lexer's measure before the current token was read.
    progress: Ghost<nat>,
}

impl Parser {
    closed spec fn depth(&self) -> nat {
        self.builder.depth()
    }

    closed spec fn source(&self) -> Seq<char> {
        self.src@
    }

    closed spec fn progress(&self) -> nat {
        self.progress@
    }

    closed spec fn cur_kind(&self) -> SyntaxKind {
        match self.current {
            None => SyntaxKind::Eof,
            Some((k, _, _)) => k,
        }
    }

    /// Where the current token starts (the end of the input at EOF).
    closed spec fn cur_start(&self) -> int {
        match self.current {
            None => self.lexer.state().position(),
            Some((_, st, _)) => st as int,
        }
    }

    /// Where the current token ends (the end of the input at EOF).
    closed spec fn cur_end(&self) -> int {
        match self.current {
            None => self.src@.len() as int,
            Some((_, _, en)) => en as int,
        }
    }

    /// Where the parser stands, as plain values.
    closed spec fn pstate(&self) -> ParseState {
        ParseState {
            lex: self.lexer.state().lex_view(),
            cur: span_view(self.current),
            trivia: spans_view(self.pending_trivia@),
            events: self.builder.events(),
            emitted: self.builder.emitted() as int,
            errors: errors_view(self.errors@),
            shell: self.pending_shell,
            path: self.pending_path_item,
        }
    }

    closed spec fn wf(&self) -> bool {
        &&& self.progress@ == pmeasure(self.src@, self.pstate())
        &&& self.lexer.wf()
        &&& self.lexer.state().source() == self.src@
        &&& self.builder.wf()
        &&& !self.builder.is_done()
        &&& self.builder.text() == self.src@.subrange(0, self.builder.emitted() as int)
        &&& chain(self.pending_trivia@, self.builder.emitted() as int, self.cur_start())
        &&& match self.current {
            None => {
                &&& self.lexer.state().position() == self.src@.len()
                &&& self.lexer.state().lex_mode() == LexMode::Normal
                &&& self.lexer.state().measure() <= self.progress@
            },
            Some((k, st, en)) => {
                &&& st <= en
                &&& en == self.lexer.state().position()
                &&& k != SyntaxKind::Eof
                &&& (opens_mode(k) ==> self.lexer.state().lex_mode() == LexMode::Normal)
                &&& self.lexer.state().measure() + (if opens_mode(k) { 3nat } else { 0 })
                    < self.progress@
            },
        }
    }

    fn new(source: &str) -> (p: Self)
        ensures
            p.wf(),
            p.source() == source@,
            p.depth() == 0,
            p.pstate() == st_advance(source@, initial_state()),
    {
        let src = chars_of(source);
        let lexer = LexerHandle::new(source);
        let mut p = Parser {
            src,
            lexer,
            current: None,
            pending_trivia: Vec::new(),
            builder: Builder::new(),
            errors: Vec::new(),
            pending_shell: false,
            pending_path_item: false,
            progress: Ghost(0),
        };
        proof {
            assert(p.builder.text() =~= Seq::<char>::empty());
            assert(p.builder.emitted() == 0);
            assert(p.builder.text() =~= p.src@.subrange(0, 0));
            assert(errors_view(p.errors@) =~= Seq::<(Seq<char>, int, int)>::empty());
            assert(spans_view(p.pending_trivia@) =~= Seq::<(SyntaxKind, int, int)>::empty());
            assert(p.pstate() =~= initial_state());
        }
        p.advance();
        p
    }

    /// Read trivia into `pending_trivia` and the next non-trivia token into `current`.
    fn advance(&mut self)
        requires
            old(self).lexer.wf(),
            old(self).lexer.state().source() == old(self).src@,
            old(self).builder.wf(),
            !old(self).builder.is_done(),
            old(self).builder.text() == old(self).src@.subrange(0, old(self).builder.emitted() as int),
            old(self).current is None,
            old(self).pending_trivia@.len() == 0,
            old(self).builder.emitted() == old(self).lexer.state().position(),
        ensures
            final(self).wf(),
            final(self).source() == old(self).source(),
            final(self).progress() <= old(self).lexer.state().measure(),
            final(self).builder == old(self).builder,
            final(self).errors == old(self).errors,
            final(self).pending_shell == old(self).pending_shell,
            final(self).pending_path_item == old(self).pending_path_item,
            final(self).src == old(self).src,
            final(self).pstate() == st_advance(old(self).src@, old(self).pstate()),
    {
        let ghost emitted = self.builder.emitted() as int;
        let ghost target = st_advance(self.src@, self.pstate());
        loop
            invariant
                self.lexer.wf(),
                self.lexer.state().source() == self.src@,
                self.builder == old(self).builder,
                self.errors == old(self).errors,
                self.pending_shell == old(self).pending_shell,
                self.pending_path_item == old(self).pending_path_item,
                self.src == old(self).src,
                self.current is None,
                self.builder.wf(),
                !self.builder.is_done(),
                self.builder.text() == self.src@.subrange(0, self.builder.emitted() as int),
                emitted == self.builder.emitted(),
                chain(self.pending_trivia@, emitted, self.lexer.state().position()),
                self.lexer.state().measure() <= old(self).lexer.state().measure(),
                st_advance(self.src@, self.pstate()) == target,
                target == st_advance(old(self).src@, old(self).pstate()),
            decreases self.lexer.state().measure(),
        {
            let ghost before = self.lexer.state().measure();
            let ghost pos_before = self.lexer.state().position();
            let ghost pend = self.pending_trivia@;
            let ghost v0 = self.pstate();
            match self.lexer.next_token_span() {
                None => {
                    self.progress = Ghost(pmeasure(self.src@, self.pstate()));
                    proof {
                        assert(self.pstate() =~= target);
                    }
                    return;
                },
                Some((k, st, en)) => {
                    proof {
                        self.lexer.lemma_wf();
                    }
                    if k.is_trivia() {
                        self.pending_trivia.push((k, st, en));
                        proof {
                            assert(spans_view(self.pending_trivia@) =~= spans_view(pend).push((k, st as int, en as int)));
                            assert(self.pstate() =~= ParseState { lex: self.lexer.state().lex_view(), trivia: v0.trivia.push((k, st as int, en as int)), ..v0 });
                            let items = self.pending_trivia@;
                            assert(items.last() == (k, st, en));
                            if pend.len() > 0 {
                                assert(items[0] == pend[0]);
                                assert forall|i: int| 0 <= i < items.len() - 1 implies #[trigger] items[i].2 == items[i + 1].1 by {
                                    if i < pend.len() - 1 {
                                        assert(items[i] == pend[i] && items[i + 1] == pend[i + 1]);
                                    } else {
                                        assert(items[i] == pend.last());
                                    }
                                }
                                assert forall|i: int| 0 <= i < items.len() implies #[trigger] items[i].1 <= items[i].2 by {
                                    if i < pend.len() {
                                        assert(items[i] == pend[i]);
                                    }
                                }
                            }
                        }
                    } else {
                        self.current = Some((k, st, en));
                        self.progress = Ghost(pmeasure(self.src@, self.pstate()));
                        proof {
                            assert(self.pstate() =~= target);
                        }
                        return;
                    }
                },
            }
        }
    }

    /// The kind of the current non-trivia token, or `Eof`.
    fn current(&self) -> (k: SyntaxKind)
        ensures
            k == self.cur_kind(),
            k == kind_at(self.pstate()),
    {
        match self.current {
            None => SyntaxKind::Eof,
            Some((k, _, _)) => k,
        }
    }

    /// `true` if the current token matches `kind`.
    fn at(&self, kind: SyntaxKind) -> (r: bool)
        ensures
            r == (self.cur_kind() == kind),
            r == (kind_at(self.pstate()) == kind),
    {
        self.current() == kind
    }

    /// `true` if the current token is any keyword.
    fn at_keyword(&self) -> (r: bool)
        ensures
            r == spec_is_keyword(self.cur_kind()),
            r == spec_is_keyword(kind_at(self.pstate())),
    {
        is_keyword(self.current())
    }

    /// Emit all pending trivia tokens into the builder.
    fn flush_trivia(&mut self)
        requires
            old(self).wf(),
            old(self).depth() > 0,
        ensures
            final(self).wf(),
            final(self).source() == old(self).source(),
            final(self).depth() == old(self).depth(),
            final(self).pending_trivia@.len() == 0,
            final(self).builder.emitted() == old(self).cur_start(),
            final(self).current == old(self).current,
            final(self).lexer == old(self).lexer,
            final(self).errors == old(self).errors,
            final(self).pending_shell == old(self).pending_shell,
            final(self).pending_path_item == old(self).pending_path_item,
            final(self).progress == old(self).progress,
            final(self).src == old(self).src,
            final(self).pstate() == st_flush(old(self).src@, old(self).pstate()),
    {
        let ghost items = self.pending_trivia@;
        let ghost tv = spans_view(items);
        let ghost ev0 = self.builder.events();
        let n = self.pending_trivia.len();
        let mut i: usize = 0;
        proof {
            self.lexer.lemma_wf();
        }
        while i < n
            invariant
                n == items.len(),
                0 <= i <= n,
                self.pending_trivia@ == items,
                self.current == old(self).current,
                self.lexer == old(self).lexer,
                self.errors == old(self).errors,
                self.pending_shell == old(self).pending_shell,
                self.pending_path_item == old(self).pending_path_item,
                self.progress == old(self).progress,
                self.src == old(self).src,
                self.lexer.wf(),
                self.lexer.state().source() == self.src@,
                self.builder.wf(),
                !self.builder.is_done(),
                self.builder.depth() == old(self).builder.depth(),
                self.builder.depth() > 0,
                self.builder.text() == self.src@.subrange(0, self.builder.emitted() as int),
                chain(items, old(self).builder.emitted() as int, old(self).cur_start()),
                old(self).cur_start() <= self.src@.len(),
                self.builder.emitted() == (if i == 0 {
                    old(self).builder.emitted() as int
                } else {
                    items[i - 1].2 as int
                }),
                tv == spans_view(items),
                self.builder.events() == ev0 + leaves(self.src@, tv.take(i as int)),
            decreases n - i,
        {
            let (k, st, en) = self.pending_trivia[i];
            proof {
                if i > 0 {
                    assert(items[i - 1].2 == items[i as int].1);
                }
                assert(items[i as int].1 <= items[i as int].2);
                if i + 1 < n {
                    assert(items[i as int].2 == items[i + 1].1);
                    assert(items[i + 1].1 <= items[i + 1].2);
                }
                lemma_chain_bound(items, old(self).builder.emitted() as int, old(self).cur_start(), i as int);
            }
            let text = substring(&self.src, st, en);
            self.builder.token(k, text);
            proof {
                assert(self.builder.text() =~= self.src@.subrange(0, en as int));
                assert(tv[i as int] == (k, st as int, en as int));
                assert(tv.take(i + 1).drop_last() =~= tv.take(i as int));
                assert(self.builder.events() =~= ev0 + leaves(self.src@, tv.take(i + 1)));
            }
            i = i + 1;
        }
        self.pending_trivia = Vec::new();
        proof {
            assert(tv.take(n as int) =~= tv);
            assert(spans_view(self.pending_trivia@) =~= Seq::<(SyntaxKind, int, int)>::empty());
            assert(self.pstate() =~= st_flush(old(self).src@, old(self).pstate()));
        }
    }

    /// Flush pending trivia, then consume and emit the current token.
    fn bump(&mut self)
        requires
            old(self).wf(),
            old(self).depth() > 0,
        ensures
            final(self).wf(),
            final(self).source() == old(self).source(),
            final(self).depth() == old(self).depth(),
            final(self).progress() <= old(self).progress(),
            old(self).cur_kind() != SyntaxKind::Eof ==> final(self).progress() < old(self).progress(),
            final(self).errors@ == old(self).errors@,
            final(self).pstate() == st_bump(old(self).src@, old(self).pstate()),
    {
        self.flush_trivia();
        proof {
            self.lexer.lemma_wf();
        }
        let ghost v1 = self.pstate();
        match self.current {
            None => {},
            Some((kind, st, en)) => {
                self.current = None;
                let text = substring(&self.src, st, en);
                self.builder.token(kind, text);
                proof {
                    assert(self.builder.text() =~= self.src@.subrange(0, en as int));
                }
                if self.pending_shell && kind == SyntaxKind::LBrace {
                    self.lexer.enter_shell_now();
                    self.pending_shell = false;
                }
                if self.pending_path_item && (kind == SyntaxKind::LBracket || kind == SyntaxKind::Comma) {
                    self.lexer.enter_path_item_now();
                }
            },
        }
        self.pending_path_item = false;
        proof {
            let s = self.src@;
            let v2 = match v1.cur {
                None => v1,
                Some((k, st, en)) => {
                    let sh = v1.shell && k == SyntaxKind::LBrace;
                    let lex1 = if sh { LexView { mode: LexMode::Shell, shell_depth: 0, ..v1.lex } } else { v1.lex };
                    let lex2 = if v1.path && (k == SyntaxKind::LBracket || k == SyntaxKind::Comma) {
                        LexView { mode: LexMode::PathItem, ..lex1 }
                    } else {
                        lex1
                    };
                    ParseState {
                        cur: None,
                        events: v1.events.push(TreeEvent::Leaf(k, st, s.subrange(st, en))),
                        emitted: en,
                        lex: lex2,
                        shell: if sh { false } else { v1.shell },
                        ..v1
                    }
                },
            };
            assert(self.pstate() =~= ParseState { path: false, ..v2 });
        }
        self.advance();
    }

    /// Consume the current token only if it matches `kind`.
    fn eat(&mut self, kind: SyntaxKind) -> (r: bool)
        requires
            old(self).wf(),
            old(self).depth() > 0,
        ensures
            final(self).wf(),
            final(self).source() == old(self).source(),
            final(self).depth() == old(self).depth(),
            final(self).progress() <= old(self).progress(),
            r == (old(self).cur_kind() == kind),
            r && kind != SyntaxKind::Eof ==> final(self).progress() < old(self).progress(),
            final(self).errors@ == old(self).errors@,
            final(self).pstate() == st_eat_opt(old(self).src@, old(self).pstate(), kind),
    {
        if self.at(kind) {
            self.bump();
            true
        } else {
            false
        }
    }

    /// Consume the current token if it matches `kind`, discarding the result.
    fn eat_optional(&mut self, kind: SyntaxKind)
        requires
            old(self).wf(),
            old(self).depth() > 0,
        ensures
            final(self).wf(),
            final(self).source() == old(self).source(),
            final(self).depth() == old(self).depth(),
            final(self).progress() <= old(self).progress(),
            final(self).pstate() == st_eat_opt(old(self).src@, old(self).pstate(), kind),
    {
        if self.at(kind) {
            self.bump();
        }
    }

    /// Consume the current token if it matches `kind`; otherwise record an error.
    fn expect(&mut self, kind: SyntaxKind)
        requires
            old(self).wf(),
            old(self).depth() > 0,
            kind != SyntaxKind::Eof,
        ensures
            final(self).wf(),
            final(self).source() == old(self).source(),
            final(self).depth() == old(self).depth(),
            final(self).progress() <= old(self).progress(),
            old(self).cur_kind() == kind ==> final(self).progress() < old(self).progress(),
            final(self).pstate() == st_expect(old(self).src@, old(self).pstate(), kind),
    {
        if !self.eat(kind) {
            let found = self.current();
            let m1 = concat("expected ", kind.name());
            let m2 = concat(m1.as_str(), ", found ");
            let message = concat(m2.as_str(), found.name());
            self.push_error(message);
        }
    }

    /// Record an error at the current token.
    fn push_error(&mut self, message: String)
        requires
            old(self).wf(),
        ensures
            final(self).wf(),
            final(self).source() == old(self).source(),
            final(self).depth() == old(self).depth(),
            final(self).progress() == old(self).progress(),
            final(self).cur_kind() == old(self).cur_kind(),
            final(self).errors@.len() == old(self).errors@.len() + 1,
            final(self).pstate() == st_error(old(self).src@, old(self).pstate(), message@),
    {
        let span = self.current_span();
        let ghost es = self.errors@;
        self.errors.push(ParseError { message, span });
        proof {
            assert(errors_view(self.errors@) =~= errors_view(es).push(error_view(self.errors@.last())));
            assert(self.pstate() =~= st_error(old(self).src@, old(self).pstate(), message@));
        }
    }

    /// Open a new node. Trivia is flushed into the parent first.
    fn start_node(&mut self, kind: SyntaxKind)
        requires
            old(self).wf(),
            old(self).depth() > 0,
        ensures
            final(self).wf(),
            final(self).source() == old(self).source(),
            final(self).depth() == old(self).depth() + 1,
            final(self).progress() == old(self).progress(),
            final(self).cur_kind() == old(self).cur_kind(),
            final(self).errors@ == old(self).errors@,
            final(self).pstate() == st_start(old(self).src@, old(self).pstate(), kind),
    {
        self.flush_trivia();
        self.builder.start_node(kind);
        proof {
            assert(self.pstate() =~= st_start(old(self).src@, old(self).pstate(), kind));
        }
    }

    /// Open the `Root` node, then flush leading trivia into it.
    fn start_root_node(&mut self)
        requires
            old(self).wf(),
            old(self).depth() == 0,
        ensures
            final(self).wf(),
            final(self).source() == old(self).source(),
            final(self).depth() == 1,
            final(self).progress() == old(self).progress(),
            final(self).cur_kind() == old(self).cur_kind(),
            final(self).pstate() == st_flush(old(self).src@, ParseState {
                events: old(self).pstate().events.push(TreeEvent::Open(SyntaxKind::Root, old(self).pstate().emitted)),
                ..old(self).pstate()
            }),
    {
        self.builder.start_node(SyntaxKind::Root);
        proof {
            assert(self.pstate() =~= ParseState {
                events: old(self).pstate().events.push(TreeEvent::Open(SyntaxKind::Root, old(self).pstate().emitted)),
                ..old(self).pstate()
            });
        }
        self.flush_trivia();
    }

    /// Close the innermost node, flushing pending trivia into it first.
    fn finish_node(&mut self)
        requires
            old(self).wf(),
            old(self).depth() > 1,
        ensures
            final(self).wf(),
            final(self).source() == old(self).source(),
            final(self).depth() == old(self).depth() - 1,
            final(self).progress() == old(self).progress(),
            final(self).cur_kind() == old(self).cur_kind(),
            final(self).errors@ == old(self).errors@,
            final(self).pstate() == st_finish(old(self).src@, old(self).pstate()),
    {
        self.flush_trivia();
        self.builder.finish_node();
        proof {
            assert(self.pstate() =~= st_finish(old(self).src@, old(self).pstate()));
        }
    }

    /// Signal that the next `{` opens a shell-command body.
    fn signal_shell(&mut self)
        requires
            old(self).wf(),
        ensures
            final(self).wf(),
            final(self).source() == old(self).source(),
            final(self).depth() == old(self).depth(),
            final(self).progress() == old(self).progress(),
            final(self).cur_kind() == old(self).cur_kind(),
            final(self).pstate() == (ParseState { shell: true, ..old(self).pstate() }),
    {
        self.pending_shell = true;
        proof {
            assert(self.pstate() =~= (ParseState { shell: true, ..old(self).pstate() }));
        }
    }

    /// Signal that the next `[` or `,` opens one item of a path list.
    fn signal_path_item(&mut self)
        requires
            old(self).wf(),
        ensures
            final(self).wf(),
            final(self).source() == old(self).source(),
            final(self).depth() == old(self).depth(),
            final(self).progress() == old(self).progress(),
            final(self).cur_kind() == old(self).cur_kind(),
            final(self).pstate() == (ParseState { path: true, ..old(self).pstate() }),
    {
        self.pending_path_item = true;
        proof {
            assert(self.pstate() =~= (ParseState { path: true, ..old(self).pstate() }));
        }
    }

    /// Record a parse error at the current position without consuming any token.
    fn error(&mut self, message: &str)
        requires
            old(self).wf(),
        ensures
            final(self).wf(),
            final(self).source() == old(self).source(),
            final(self).depth() == old(self).depth(),
            final(self).progress() == old(self).progress(),
            final(self).cur_kind() == old(self).cur_kind(),
            final(self).errors@.len() == old(self).errors@.len() + 1,
            final(self).pstate() == st_error(old(self).src@, old(self).pstate(), message@),
    {
        self.push_error(message.to_owned());
    }

    /// Record an error and wrap the current token in an `ErrorNode`, then advance.
    fn error_bump(&mut self, message: &str)
        requires
            old(self).wf(),
            old(self).depth() > 0,
        ensures
            final(self).wf(),
            final(self).source() == old(self).source(),
            final(self).depth() == old(self).depth(),
            final(self).progress() <= old(self).progress(),
            old(self).cur_kind() != SyntaxKind::Eof ==> final(self).progress() < old(self).progress(),
            final(self).pstate() == st_error_bump(old(self).src@, old(self).pstate(), message@),
    {
        self.error(message);
        self.start_node(SyntaxKind::ErrorNode);
        if !self.at(SyntaxKind::Eof) {
            self.bump();
        }
        self.finish_node();
    }

    /// Span of the current token within the source.
    fn current_span(&self) -> (r: std::ops::Range<usize>)
        requires
            self.wf(),
        ensures
            r.start == self.cur_start(),
            r.end == self.cur_end(),
    {
        match self.current {
            None => {
                let n = self.src.len();
                n..n
            },
            Some((_, st, en)) => st..en,
        }
    }

    /// Close the `Root` node and hand back the tree and the errors.
    fn finish(self) -> (r: Parse)
        requires
            self.wf(),
            self.depth() == 1,
            self.cur_kind() == SyntaxKind::Eof,
        ensures
            node_text(r.tree()) == self.source(),
            r.tree().kind == SyntaxKind::Root,
            r.tree().start == 0,
            r.tree().end == self.src@.len(),
            tree_events(r.tree()) == st_finish(self.src@, self.pstate()).events,
            errors_view(r.error_list()) == st_finish(self.src@, self.pstate()).errors,
    {
        let mut p = self;
        p.flush_trivia();
        p.builder.finish_node();
        let root = p.builder.finish();
        proof {
            assert(p.src@.subrange(0, p.src@.len() as int) =~= p.src@);
        }
        Parse { root, errors: p.errors }
    }
}

proof fn lemma_chain_bound(items: Seq<(SyntaxKind, usize, usize)>, from: int, to: int, i: int)
    requires
        chain(items, from, to),
        0 <= i < items.len(),
    ensures
        items[i].2 <= to,
        from <= items[i].1,
    decreases items.len() - i,
{
    if i < items.len() - 1 {
        assert(items[i].2 == items[i + 1].1);
        lemma_chain_bound(items, from, to, i + 1);
    }
    lemma_chain_from(items, from, to, i);
}

proof fn lemma_chain_from(items: Seq<(SyntaxKind, usize, usize)>, from: int, to: int, i: int)
    requires
        chain(items, from, to),
        0 <= i < items.len(),
    ensures
        from <= items[i].1,
    decreases i,
{
    if i > 0 {
        assert(items[i - 1].2 == items[i].1);
        assert(items[i - 1].1 <= items[i - 1].2);
        lemma_chain_from(items, from, to, i - 1);
    }
}

// ─── grammar ─────────────────────────────────────────────────────────────────

/// `root = workflow_def*`
fn root(p: &mut Parser)
    requires
        old(p).wf(),
        old(p).depth() == 0,
    ensures
        final(p).wf(),
        final(p).source() == old(p).source(),
        final(p).depth() == 1,
        final(p).cur_kind() == SyntaxKind::Eof,
        final(p).pstate() == g_root(old(p).source(), old(p).pstate()),
{
    proof {
        reveal(g_root);
        reveal(g_root_loop);
    }
    p.start_root_node();
    while !p.at(SyntaxKind::Eof)
        invariant
            p.wf(),
            p.source() == old(p).source(),
            p.depth() == 1,
            g_root_loop(p.source(), p.pstate()) == g_root(old(p).source(), old(p).pstate()),
        decreases p.progress(),
    {
        proof {
            reveal(g_root_loop);
        }
        if p.at(SyntaxKind::KwWorkflow) {
            workflow_def(p);
        } else {
            p.error_bump("expected `workflow` or end of file");
        }
    }
}

fn workflow_def(p: &mut Parser)
    requires
        old(p).wf(),
        old(p).depth() > 0,
        old(p).cur_kind() != SyntaxKind::Eof,
    ensures
        final(p).wf(),
        final(p).source() == old(p).source(),
        final(p).depth() == old(p).depth(),
        final(p).progress() < old(p).progress(),
        final(p).pstate() == g_workflow_def(old(p).source(), old(p).pstate()),
{
    proof {
        reveal(g_workflow_def);
        reveal(g_opt_attrs);
    }
    p.start_node(SyntaxKind::WorkflowDef);
    p.bump();
    name(p);
    if p.at(SyntaxKind::LParen) {
        attr_list_body(p);
    }
    workflow_body(p);
    p.finish_node();
}

fn workflow_body(p: &mut Parser)
    requires
        old(p).wf(),
        old(p).depth() > 0,
    ensures
        final(p).wf(),
        final(p).source() == old(p).source(),
        final(p).depth() == old(p).depth(),
        final(p).progress() <= old(p).progress(),
        old(p).cur_kind() == SyntaxKind::LBrace ==> final(p).progress() < old(p).progress(),
        old(p).cur_kind() != SyntaxKind::LBrace ==> final(p).cur_kind() == SyntaxKind::Eof,
        final(p).pstate() == g_workflow_body(old(p).source(), old(p).pstate()),
{
    proof {
        reveal(g_workflow_body);
        reveal(g_workflow_loop);
    }
    p.start_node(SyntaxKind::WorkflowBody);
    let braced = p.at(SyntaxKind::LBrace);
    if braced {
        p.bump();
    }
    let ghost target = g_workflow_loop(p.source(), p.pstate(), braced);
    loop
        invariant
            g_workflow_loop(p.source(), p.pstate(), braced) == target,
            p.wf(),
            p.source() == old(p).source(),
            p.depth() == old(p).depth() + 1,
            p.progress() <= old(p).progress(),
            braced == (old(p).cur_kind() == SyntaxKind::LBrace),
            braced ==> p.progress() < old(p).progress(),
        ensures
            p.wf(),
            p.source() == old(p).source(),
            p.depth() == old(p).depth() + 1,
            p.progress() <= old(p).progress(),
            braced ==> p.progress() < old(p).progress(),
            !braced ==> p.cur_kind() == SyntaxKind::Eof,
            p.pstate() == target,
        decreases p.progress(),
    {
        proof {
            reveal(g_workflow_loop);
            reveal(g_workflow_item);
            reveal(g_opt_attrs);
        }
        if p.at(SyntaxKind::Eof) {
            break;
        }
        if braced && p.at(SyntaxKind::RBrace) {
            break;
        }
        match p.current() {
            SyntaxKind::KwUse => use_decl(p),
            SyntaxKind::KwStage => stage(p),
            SyntaxKind::KwTemplate => template_def(p),
            SyntaxKind::KwDefaults => {
                p.start_node(SyntaxKind::AttrList);
                p.bump();
                if p.at(SyntaxKind::LParen) {
                    attr_list_body(p);
                }
                p.finish_node();
            },
            _ => p.error_bump("expected `use`, `stage`, `template`, or end of workflow"),
        }
    }
    if braced {
        p.expect(SyntaxKind::RBrace);
    }
    p.finish_node();
}

fn use_decl(p: &mut Parser)
    requires
        old(p).wf(),
        old(p).depth() > 0,
        old(p).cur_kind() != SyntaxKind::Eof,
    ensures
        final(p).wf(),
        final(p).source() == old(p).source(),
        final(p).depth() == old(p).depth(),
        final(p).progress() < old(p).progress(),
        final(p).pstate() == g_use_decl(old(p).source(), old(p).pstate()),
{
    proof {
        reveal(g_use_decl);
        reveal(g_opt_attrs);
    }
    p.start_node(SyntaxKind::UseDecl);
    p.bump();
    if p.at(SyntaxKind::LBrace) {
        use_block(p);
    } else {
        name(p);
        if p.at(SyntaxKind::LParen) {
            attr_list_body(p);
        }
    }
    p.finish_node();
}

/// `{ workflow(location = …, name = …)* }` — the block form of `use`.
fn use_block(p: &mut Parser)
    requires
        old(p).wf(),
        old(p).depth() > 0,
    ensures
        final(p).wf(),
        final(p).source() == old(p).source(),
        final(p).depth() == old(p).depth(),
        final(p).progress() <= old(p).progress(),
        old(p).cur_kind() == SyntaxKind::LBrace ==> final(p).progress() < old(p).progress(),
        final(p).pstate() == g_use_block(old(p).source(), old(p).pstate()),
{
    proof {
        reveal(g_use_block);
        reveal(g_use_loop);
    }
    p.expect(SyntaxKind::LBrace);
    let ghost target = g_use_loop(p.source(), p.pstate());
    while !p.at(SyntaxKind::RBrace) && !p.at(SyntaxKind::Eof)
        invariant
            g_use_loop(p.source(), p.pstate()) == target,
            p.wf(),
            p.source() == old(p).source(),
            p.depth() == old(p).depth(),
            p.depth() > 0,
            p.progress() <= old(p).progress(),
            old(p).cur_kind() == SyntaxKind::LBrace ==> p.progress() < old(p).progress(),
        decreases p.progress(),
    {
        proof {
            reveal(g_use_loop);
            reveal(g_opt_attrs);
        }
        if p.at(SyntaxKind::KwWorkflow) {
            p.start_node(SyntaxKind::WorkflowImport);
            p.bump();
            if p.at(SyntaxKind::LParen) {
                attr_list_body(p);
            }
            p.finish_node();
        } else if p.at(SyntaxKind::Comma) {
            p.bump();
        } else {
            p.error_bump("expected `workflow` import or `}`");
        }
    }
    p.expect(SyntaxKind::RBrace);
}

fn attr_list_body(p: &mut Parser)
    requires
        old(p).wf(),
        old(p).depth() > 0,
    ensures
        final(p).wf(),
        final(p).source() == old(p).source(),
        final(p).depth() == old(p).depth(),
        final(p).progress() <= old(p).progress(),
        old(p).cur_kind() == SyntaxKind::LParen ==> final(p).progress() < old(p).progress(),
        final(p).pstate() == g_attr_list_body(old(p).source(), old(p).pstate()),
{
    proof {
        reveal(g_attr_list_body);
        reveal(g_attr_loop);
    }
    p.start_node(SyntaxKind::AttrList);
    p.expect(SyntaxKind::LParen);
    let ghost target = g_attr_loop(p.source(), p.pstate());
    while !p.at(SyntaxKind::RParen) && !p.at(SyntaxKind::Eof)
        invariant
            g_attr_loop(p.source(), p.pstate()) == target,
            p.wf(),
            p.source() == old(p).source(),
            p.depth() == old(p).depth() + 1,
            p.progress() <= old(p).progress(),
            old(p).cur_kind() == SyntaxKind::LParen ==> p.progress() < old(p).progress(),
        decreases p.progress(),
    {
        proof {
            reveal(g_attr_loop);
        }
        if p.at(SyntaxKind::Ident) || p.at_keyword() {
            attr(p);
        } else if p.at(SyntaxKind::Comma) {
            p.bump();
        } else {
            p.error_bump("expected attribute name or `)`");
        }
    }
    p.expect(SyntaxKind::RParen);
    p.finish_node();
}

fn attr(p: &mut Parser)
    requires
        old(p).wf(),
        old(p).depth() > 0,
        old(p).cur_kind() != SyntaxKind::Eof,
    ensures
        final(p).wf(),
        final(p).source() == old(p).source(),
        final(p).depth() == old(p).depth(),
        final(p).progress() < old(p).progress(),
        final(p).pstate() == g_attr(old(p).source(), old(p).pstate()),
{
    proof {
        reveal(g_attr);
    }
    p.start_node(SyntaxKind::Attr);
    p.bump();
    p.expect(SyntaxKind::Eq);
    attr_value(p);
    p.eat_optional(SyntaxKind::Comma);
    p.finish_node();
}

fn attr_value(p: &mut Parser)
    requires
        old(p).wf(),
        old(p).depth() > 0,
    ensures
        final(p).wf(),
        final(p).source() == old(p).source(),
        final(p).depth() == old(p).depth(),
        final(p).progress() <= old(p).progress(),
        old(p).cur_kind() == SyntaxKind::LBracket || old(p).cur_kind() == SyntaxKind::BareValue
            ==> final(p).progress() < old(p).progress(),
        !(old(p).cur_kind() == SyntaxKind::LBracket || old(p).cur_kind() == SyntaxKind::BareValue) ==> {
            &&& final(p).progress() == old(p).progress()
            &&& final(p).cur_kind() == old(p).cur_kind()
            &&& final(p).errors@.len() == old(p).errors@.len() + 1
        },
        final(p).pstate() == g_attr_value(old(p).source(), old(p).pstate()),
{
    proof {
        reveal(g_attr_value);
    }
    p.start_node(SyntaxKind::AttrValue);
    if p.at(SyntaxKind::LBracket) {
        ref_list(p);
    } else if p.at(SyntaxKind::BareValue) {
        p.bump();
    } else {
        p.error("expected attribute value");
    }
    p.finish_node();
}

fn ref_list(p: &mut Parser)
    requires
        old(p).wf(),
        old(p).depth() > 0,
    ensures
        final(p).wf(),
        final(p).source() == old(p).source(),
        final(p).depth() == old(p).depth(),
        final(p).progress() <= old(p).progress(),
        old(p).cur_kind() == SyntaxKind::LBracket ==> final(p).progress() < old(p).progress(),
        final(p).pstate() == g_ref_list(old(p).source(), old(p).pstate()),
{
    proof {
        reveal(g_ref_list);
        reveal(g_ref_list_loop);
    }
    p.start_node(SyntaxKind::RefList);
    p.expect(SyntaxKind::LBracket);
    let ghost target = g_ref_list_loop(p.source(), p.pstate());
    while !p.at(SyntaxKind::RBracket) && !p.at(SyntaxKind::Eof)
        invariant
            g_ref_list_loop(p.source(), p.pstate()) == target,
            p.wf(),
            p.source() == old(p).source(),
            p.depth() == old(p).depth() + 1,
            p.progress() <= old(p).progress(),
            old(p).cur_kind() == SyntaxKind::LBracket ==> p.progress() < old(p).progress(),
        decreases p.progress(),
    {
        proof {
            reveal(g_ref_list_loop);
        }
        if p.at(SyntaxKind::Ident) {
            reference(p);
            p.eat_optional(SyntaxKind::Comma);
        } else if p.at(SyntaxKind::Comma) {
            p.bump();
        } else {
            p.error_bump("expected identifier in reference list");
        }
    }
    p.expect(SyntaxKind::RBracket);
    p.finish_node();
}

fn reference(p: &mut Parser)
    requires
        old(p).wf(),
        old(p).depth() > 0,
    ensures
        final(p).wf(),
        final(p).source() == old(p).source(),
        final(p).depth() == old(p).depth(),
        final(p).progress() <= old(p).progress(),
        old(p).cur_kind() == SyntaxKind::Ident ==> final(p).progress() < old(p).progress(),
        final(p).pstate() == g_reference(old(p).source(), old(p).pstate()),
{
    proof {
        reveal(g_reference);
        reveal(g_ref_loop);
    }
    p.start_node(SyntaxKind::Ref);
    p.expect(SyntaxKind::Ident);
    let ghost target = g_ref_loop(p.source(), p.pstate());
    loop
        invariant_except_break
            g_ref_loop(p.source(), p.pstate()) == target,
        invariant
            p.wf(),
            p.source() == old(p).source(),
            p.depth() == old(p).depth() + 1,
            p.progress() <= old(p).progress(),
            old(p).cur_kind() == SyntaxKind::Ident ==> p.progress() < old(p).progress(),
        ensures
            p.wf(),
            p.source() == old(p).source(),
            p.depth() == old(p).depth() + 1,
            p.progress() <= old(p).progress(),
            old(p).cur_kind() == SyntaxKind::Ident ==> p.progress() < old(p).progress(),
            p.pstate() == target,
        decreases p.progress(),
    {
        proof {
            reveal(g_ref_loop);
        }
        if p.at(SyntaxKind::Dot) || p.at(SyntaxKind::Slash) {
            p.bump();
            if p.at(SyntaxKind::Ident) {
                p.bump();
            } else {
                p.error("expected identifier after `.` or `/`");
                break;
            }
        } else {
            break;
        }
    }
    p.finish_node();
}

fn stage(p: &mut Parser)
    requires
        old(p).wf(),
        old(p).depth() > 0,
        old(p).cur_kind() != SyntaxKind::Eof,
    ensures
        final(p).wf(),
        final(p).source() == old(p).source(),
        final(p).depth() == old(p).depth(),
        final(p).progress() < old(p).progress(),
        final(p).pstate() == g_stage(old(p).source(), old(p).pstate()),
{
    proof {
        reveal(g_stage);
        reveal(g_opt_attrs);
    }
    p.start_node(SyntaxKind::Stage);
    p.bump();
    name(p);
    if p.at(SyntaxKind::LParen) {
        attr_list_body(p);
    }
    stage_body(p);
    p.finish_node();
}

fn stage_body(p: &mut Parser)
    requires
        old(p).wf(),
        old(p).depth() > 0,
    ensures
        final(p).wf(),
        final(p).source() == old(p).source(),
        final(p).depth() == old(p).depth(),
        final(p).progress() <= old(p).progress(),
        old(p).cur_kind() == SyntaxKind::LBrace ==> final(p).progress() < old(p).progress(),
        final(p).pstate() == g_stage_body(old(p).source(), old(p).pstate()),
{
    proof {
        reveal(g_stage_body);
        reveal(g_stage_loop);
    }
    p.start_node(SyntaxKind::StageBody);
    p.expect(SyntaxKind::LBrace);
    let ghost target = g_stage_loop(p.source(), p.pstate());
    while !p.at(SyntaxKind::RBrace) && !p.at(SyntaxKind::Eof)
        invariant
            g_stage_loop(p.source(), p.pstate()) == target,
            p.wf(),
            p.source() == old(p).source(),
            p.depth() == old(p).depth() + 1,
            p.progress() <= old(p).progress(),
            old(p).cur_kind() == SyntaxKind::LBrace ==> p.progress() < old(p).progress(),
        decreases p.progress(),
    {
        proof {
            reveal(g_stage_loop);
        }
        match p.current() {
            SyntaxKind::KwJob => job(p),
            SyntaxKind::KwTemplate => template_def(p),
            _ => p.error_bump("expected `job` or `template`"),
        }
    }
    p.expect(SyntaxKind::RBrace);
    p.finish_node();
}

fn job(p: &mut Parser)
    requires
        old(p).wf(),
        old(p).depth() > 0,
        old(p).cur_kind() != SyntaxKind::Eof,
    ensures
        final(p).wf(),
        final(p).source() == old(p).source(),
        final(p).depth() == old(p).depth(),
        final(p).progress() < old(p).progress(),
        final(p).pstate() == g_job(old(p).source(), old(p).pstate()),
{
    proof {
        reveal(g_job);
        reveal(g_opt_attrs);
    }
    p.start_node(SyntaxKind::Job);
    p.bump();
    name(p);
    if p.at(SyntaxKind::LParen) {
        attr_list_body(p);
    }
    match p.current() {
        SyntaxKind::LBrace => job_body_inline(p),
        SyntaxKind::LBracket => job_body_steps(p),
        _ => p.error_bump("expected `{` or `[` for job body"),
    }
    if p.at(SyntaxKind::Arrow) {
        return_annotation(p);
    }
    p.finish_node();
}

fn template_def(p: &mut Parser)
    requires
        old(p).wf(),
        old(p).depth() > 0,
        old(p).cur_kind() != SyntaxKind::Eof,
    ensures
        final(p).wf(),
        final(p).source() == old(p).source(),
        final(p).depth() == old(p).depth(),
        final(p).progress() < old(p).progress(),
        final(p).pstate() == g_template_def(old(p).source(), old(p).pstate()),
{
    proof {
        reveal(g_template_def);
        reveal(g_opt_attrs);
    }
    p.start_node(SyntaxKind::TemplateDef);
    p.bump();
    name(p);
    if p.at(SyntaxKind::LParen) {
        attr_list_body(p);
    }
    if p.at(SyntaxKind::LBracket) {
        job_body_steps(p);
    }
    if p.at(SyntaxKind::Arrow) {
        return_annotation(p);
    }
    p.finish_node();
}

/// `-> [ item, ... ]` after the body of a job or a template: the files and
/// environment variables it passes on.
fn return_annotation(p: &mut Parser)
    requires
        old(p).wf(),
        old(p).depth() > 0,
        old(p).cur_kind() == SyntaxKind::Arrow,
    ensures
        final(p).wf(),
        final(p).source() == old(p).source(),
        final(p).depth() == old(p).depth(),
        final(p).progress() < old(p).progress(),
        final(p).pstate() == g_return_annotation(old(p).source(), old(p).pstate()),
{
    proof {
        reveal(g_return_annotation);
    }
    p.start_node(SyntaxKind::ReturnAnnotation);
    p.bump();
    if p.at(SyntaxKind::LBracket) {
        path_list(p);
    } else {
        p.error("expected `[` after `->`");
    }
    p.finish_node();
}

/// `[ item, ... ]`: each item is read whole, up to a `,`, a `]` or the end
/// of the line.
fn path_list(p: &mut Parser)
    requires
        old(p).wf(),
        old(p).depth() > 0,
        old(p).cur_kind() == SyntaxKind::LBracket,
    ensures
        final(p).wf(),
        final(p).source() == old(p).source(),
        final(p).depth() == old(p).depth(),
        final(p).progress() < old(p).progress(),
        final(p).pstate() == g_path_list(old(p).source(), old(p).pstate()),
{
    proof {
        reveal(g_path_list);
        reveal(g_path_loop);
    }
    p.start_node(SyntaxKind::PathList);
    p.signal_path_item();
    p.bump();
    let ghost target = g_path_loop(p.source(), p.pstate());
    while !p.at(SyntaxKind::RBracket) && !p.at(SyntaxKind::Eof)
        invariant
            g_path_loop(p.source(), p.pstate()) == target,
            p.wf(),
            p.source() == old(p).source(),
            p.depth() == old(p).depth() + 1,
            p.progress() < old(p).progress(),
        decreases p.progress(),
    {
        proof {
            reveal(g_path_loop);
        }
        match p.current() {
            SyntaxKind::PathValue => {
                p.start_node(SyntaxKind::PathItem);
                p.bump();
                p.finish_node();
            },
            SyntaxKind::Comma => {
                p.signal_path_item();
                p.bump();
            },
            _ => p.error_bump("expected a path, `,` or `]`"),
        }
    }
    p.expect(SyntaxKind::RBracket);
    p.finish_node();
}

fn job_body_inline(p: &mut Parser)
    requires
        old(p).wf(),
        old(p).depth() > 0,
    ensures
        final(p).wf(),
        final(p).source() == old(p).source(),
        final(p).depth() == old(p).depth(),
        final(p).progress() <= old(p).progress(),
        old(p).cur_kind() != SyntaxKind::Eof ==> final(p).progress() < old(p).progress(),
        final(p).pstate() == g_job_body_inline(old(p).source(), old(p).pstate()),
{
    proof {
        reveal(g_job_body_inline);
        reveal(g_shell_block);
    }
    p.start_node(SyntaxKind::JobBodyInline);
    p.signal_shell();
    p.bump();
    if p.at(SyntaxKind::ShellBody) {
        p.bump();
    }
    p.expect(SyntaxKind::RBrace);
    p.finish_node();
}

fn job_body_steps(p: &mut Parser)
    requires
        old(p).wf(),
        old(p).depth() > 0,
    ensures
        final(p).wf(),
        final(p).source() == old(p).source(),
        final(p).depth() == old(p).depth(),
        final(p).progress() <= old(p).progress(),
        old(p).cur_kind() == SyntaxKind::LBracket ==> final(p).progress() < old(p).progress(),
        final(p).pstate() == g_job_body_steps(old(p).source(), old(p).pstate()),
{
    proof {
        reveal(g_job_body_steps);
        reveal(g_steps_loop);
    }
    p.start_node(SyntaxKind::JobBodySteps);
    p.expect(SyntaxKind::LBracket);
    let ghost target = g_steps_loop(p.source(), p.pstate());
    while !p.at(SyntaxKind::RBracket) && !p.at(SyntaxKind::Eof)
        invariant
            g_steps_loop(p.source(), p.pstate()) == target,
            p.wf(),
            p.source() == old(p).source(),
            p.depth() == old(p).depth() + 1,
            p.progress() <= old(p).progress(),
            old(p).cur_kind() == SyntaxKind::LBracket ==> p.progress() < old(p).progress(),
        decreases p.progress(),
    {
        proof {
            reveal(g_steps_loop);
        }
        match p.current() {
            SyntaxKind::KwSteps => steps_keyword(p),
            SyntaxKind::KwStep => step_item(p),
            SyntaxKind::Comma => {
                p.bump();
            },
            _ => p.error_bump("expected `step`, `steps`, or `]`"),
        }
    }
    p.expect(SyntaxKind::RBracket);
    p.finish_node();
}

/// A full step (`step name { body }`) or a bare step reference
/// (`step name,` or `step name`).
fn step_item(p: &mut Parser)
    requires
        old(p).wf(),
        old(p).depth() > 0,
        old(p).cur_kind() != SyntaxKind::Eof,
    ensures
        final(p).wf(),
        final(p).source() == old(p).source(),
        final(p).depth() == old(p).depth(),
        final(p).progress() < old(p).progress(),
        final(p).pstate() == g_step_item(old(p).source(), old(p).pstate()),
{
    proof {
        reveal(g_step_item);
        reveal(g_shell_block);
    }
    p.start_node(SyntaxKind::Step);
    p.bump();
    name(p);
    match p.current() {
        SyntaxKind::LBrace => {
            p.signal_shell();
            p.bump();
            if p.at(SyntaxKind::ShellBody) {
                p.bump();
            }
            p.expect(SyntaxKind::RBrace);
        },
        SyntaxKind::Comma => {
            p.bump();
        },
        SyntaxKind::RBracket | SyntaxKind::KwStep | SyntaxKind::KwSteps | SyntaxKind::KwTemplate => {},
        _ => {
            p.error("expected `{` for step body or `,` for step reference");
        },
    }
    p.finish_node();
}

fn steps_keyword(p: &mut Parser)
    requires
        old(p).wf(),
        old(p).depth() > 0,
        old(p).cur_kind() != SyntaxKind::Eof,
    ensures
        final(p).wf(),
        final(p).source() == old(p).source(),
        final(p).depth() == old(p).depth(),
        final(p).progress() < old(p).progress(),
        final(p).pstate() == g_steps_keyword(old(p).source(), old(p).pstate()),
{
    proof {
        reveal(g_steps_keyword);
    }
    p.start_node(SyntaxKind::StepsKeyword);
    p.bump();
    p.eat_optional(SyntaxKind::Comma);
    p.finish_node();
}

fn name(p: &mut Parser)
    requires
        old(p).wf(),
        old(p).depth() > 0,
    ensures
        final(p).wf(),
        final(p).source() == old(p).source(),
        final(p).depth() == old(p).depth(),
        final(p).progress() <= old(p).progress(),
        old(p).cur_kind() == SyntaxKind::Ident ==> {
            &&& final(p).progress() < old(p).progress()
            &&& final(p).errors@ == old(p).errors@
        },
        old(p).cur_kind() != SyntaxKind::Ident ==> {
            &&& final(p).progress() == old(p).progress()
            &&& final(p).cur_kind() == old(p).cur_kind()
            &&& final(p).errors@.len() == old(p).errors@.len() + 1
        },
        final(p).pstate() == g_name(old(p).source(), old(p).pstate()),
{
    proof {
        reveal(g_name);
    }
    p.start_node(SyntaxKind::Name);
    if p.at(SyntaxKind::Ident) {
        p.bump();
    } else {
        p.error("expected identifier for name");
    }
    p.finish_node();
}

} // verus!

use vstd::prelude::*;

use crate::ast::{
    AstNode, Root, attr_list_of, name_of, spec_attr_list, spec_attr_value, spec_bare_text, spec_key_text,
    spec_name, spec_ref_text,
};
use crate::cst::{Element, Node, spec_child_node, spec_child_nodes, spec_child_token};
use crate::dedent::{lines_of, spec_lines, spec_trim, trim_chars};
use crate::lower::{name_or_empty, spec_shell};
use crate::syntax::SyntaxKind;
use crate::text::{chars_of, string_from_chars};

verus! {

/// Formatting failed: the source cannot be formatted without data loss.
#[derive(Debug, Clone, Copy, PartialEq, Eq, Structural)]
pub enum FormatError {
    /// `defaults` blocks have no typed AST node yet; formatting one would
    /// silently discard its content.
    DefaultsBlockUnsupported,
}

impl FormatError {
    /// What went wrong, for people.
    pub fn message(&self) -> (r: String)
        ensures
            r@ == "`defaults` blocks are not yet supported by the formatter"@,
    {
        match self {
            FormatError::DefaultsBlockUnsupported => "`defaults` blocks are not yet supported by the formatter".to_owned(),
        }
    }
}

// ─── text pieces ─────────────────────────────────────────────────────────────

/// `n` levels of indentation.
pub open spec fn ind(n: nat) -> Seq<char>
    decreases n,
{
    if n == 0 {
        Seq::empty()
    } else {
        ind((n - 1) as nat) + "    "@
    }
}

fn push_indent(out: &mut String, n: usize)
    ensures
        final(out)@ == old(out)@ + ind(n as nat),
{
    let mut i: usize = 0;
    while i < n
        invariant
            0 <= i <= n,
            out@ == old(out)@ + ind(i as nat),
        decreases n - i,
    {
        out.append("    ");
        i = i + 1;
    }
}

/// The lines of a shell body, trimmed, without the empty ones.
pub open spec fn command_lines(ls: Seq<Seq<char>>) -> Seq<Seq<char>>
    decreases ls.len(),
{
    if ls.len() == 0 {
        Seq::empty()
    } else {
        let rest = command_lines(ls.drop_last());
        let t = spec_trim(ls.last());
        if t.len() == 0 {
            rest
        } else {
            rest.push(t)
        }
    }
}

/// Each line on a line of its own at `n` levels of indentation.
pub open spec fn lines_at(ls: Seq<Seq<char>>, n: nat) -> Seq<char>
    decreases ls.len(),
{
    if ls.len() == 0 {
        Seq::empty()
    } else {
        lines_at(ls.drop_last(), n) + "\n"@ + ind(n) + ls.last()
    }
}

/// A `{ ... }` shell body: `{}` when it has no command, one line when it has
/// one, and each command on a line of its own otherwise.
pub open spec fn fmt_brace(shell: Seq<char>, n: nat) -> Seq<char> {
    let ls = command_lines(spec_lines(shell));
    if ls.len() == 0 {
        "{}"@
    } else if ls.len() == 1 {
        "{ "@ + ls[0] + " }"@
    } else {
        "{"@ + lines_at(ls, n + 1) + "\n"@ + ind(n) + "}"@
    }
}

fn print_brace_body(out: &mut String, shell: &str, n: usize)
    requires
        n < usize::MAX,
    ensures
        final(out)@ == old(out)@ + fmt_brace(shell@, n as nat),
{
    proof {
        reveal_strlit("{}");
        reveal_strlit("{ ");
        reveal_strlit(" }");
        reveal_strlit("{");
        reveal_strlit("}");
        reveal_strlit("\n");
    }
    let cs = chars_of(shell);
    let raw = lines_of(&cs);
    let ghost rv = raw@.map_values(|v: Vec<char>| v@);
    let mut ls: Vec<String> = Vec::new();
    let mut i: usize = 0;
    while i < raw.len()
        invariant
            0 <= i <= raw@.len(),
            rv == raw@.map_values(|v: Vec<char>| v@),
            crate::ir::strs_view(ls@) == command_lines(rv.take(i as int)),
        decreases raw@.len() - i,
    {
        let t = trim_chars(&raw[i]);
        assert(rv.take(i + 1).drop_last() =~= rv.take(i as int));
        assert(rv[i as int] == raw@[i as int]@);
        if t.len() > 0 {
            let ghost before = crate::ir::strs_view(ls@);
            ls.push(string_from_chars(t.as_slice()));
            assert(crate::ir::strs_view(ls@) =~= before.push(t@));
        }
        i = i + 1;
    }
    assert(rv.take(rv.len() as int) =~= rv);
    let ghost lv = crate::ir::strs_view(ls@);
    if ls.len() == 0 {
        out.append("{}");
    } else if ls.len() == 1 {
        out.append("{ ");
        out.append(ls[0].as_str());
        out.append(" }");
    } else {
        out.append("{");
        let ghost h = out@;
        let mut k: usize = 0;
        while k < ls.len()
            invariant
                0 <= k <= ls@.len(),
                n < usize::MAX,
                lv == crate::ir::strs_view(ls@),
                out@ == h + lines_at(lv.take(k as int), (n + 1) as nat),
            decreases ls@.len() - k,
        {
            out.append("\n");
            push_indent(out, n + 1);
            out.append(ls[k].as_str());
            assert(lv.take(k + 1).drop_last() =~= lv.take(k as int));
            k = k + 1;
        }
        assert(lv.take(lv.len() as int) =~= lv);
        out.append("\n");
        push_indent(out, n);
        out.append("}");
    }
}

// ─── attributes ──────────────────────────────────────────────────────────────

/// The texts joined with `, ` between them.
pub open spec fn join_comma(ts: Seq<Seq<char>>) -> Seq<char>
    decreases ts.len(),
{
    if ts.len() == 0 {
        Seq::empty()
    } else if ts.len() == 1 {
        ts[0]
    } else {
        join_comma(ts.drop_last()) + ", "@ + ts.last()
    }
}

/// A reference list: `[ a.b, c.d ]`, or `[]` when it is empty.
pub open spec fn fmt_ref_list(rl: Node) -> Seq<char> {
    let refs = crate::validation::ref_texts(spec_child_nodes(rl.children@, SyntaxKind::Ref));
    if refs.len() == 0 {
        "[]"@
    } else {
        "[ "@ + join_comma(refs) + " ]"@
    }
}

pub open spec fn fmt_value(v: Node) -> Seq<char> {
    match spec_bare_text(v) {
        Some(t) => t,
        None => match spec_child_node(v, SyntaxKind::RefList) {
            Some(rl) => fmt_ref_list(rl),
            None => Seq::empty(),
        },
    }
}

/// `key = value`.
pub open spec fn fmt_attr(a: Node) -> Seq<char> {
    (match spec_key_text(a) {
        Some(k) => k,
        None => Seq::empty(),
    }) + " = "@ + match spec_attr_value(a) {
        Some(v) => fmt_value(v),
        None => Seq::empty(),
    }
}

/// The attributes each on a line of their own, followed by a comma.
pub open spec fn attrs_multiline(attrs: Seq<Node>, n: nat) -> Seq<char>
    decreases attrs.len(),
{
    if attrs.len() == 0 {
        Seq::empty()
    } else {
        attrs_multiline(attrs.drop_last(), n) + "\n"@ + ind(n) + fmt_attr(attrs.last()) + ","@
    }
}

/// An attribute list: ` ( key = value )` for a single attribute, otherwise
/// each on a line of its own.
pub open spec fn fmt_attr_list(al: Node, n: nat) -> Seq<char> {
    let attrs = spec_child_nodes(al.children@, SyntaxKind::Attr);
    if attrs.len() == 1 {
        " ( "@ + fmt_attr(attrs[0]) + " )"@
    } else {
        " ("@ + attrs_multiline(attrs, n + 1) + "\n"@ + ind(n) + ")"@
    }
}

/// The attribute list of `node`, if it has one.
pub open spec fn fmt_attrs_of(node: Node, n: nat) -> Seq<char> {
    match spec_attr_list(node) {
        Some(al) => fmt_attr_list(al, n),
        None => Seq::empty(),
    }
}

fn print_ref_list(out: &mut String, rl: &crate::ast::RefList)
    ensures
        final(out)@ == old(out)@ + fmt_ref_list(rl.node()),
{
    proof {
        reveal_strlit("[]");
        reveal_strlit("[ ");
        reveal_strlit(" ]");
        reveal_strlit(", ");
    }
    let refs = rl.refs();
    let ghost sr = spec_child_nodes(rl.node().children@, SyntaxKind::Ref);
    let ghost tv = crate::validation::ref_texts(sr);
    if refs.len() == 0 {
        out.append("[]");
        return;
    }
    out.append("[ ");
    let ghost h = out@;
    let mut i: usize = 0;
    while i < refs.len()
        invariant
            0 <= i <= refs@.len(),
            refs@.len() == sr.len(),
            forall|j: int| 0 <= j < refs@.len() ==> #[trigger] refs@[j].node() == sr[j],
            tv == crate::validation::ref_texts(sr),
            out@ == h + join_comma(tv.take(i as int)),
        decreases refs@.len() - i,
    {
        if i > 0 {
            out.append(", ");
        }
        let t = refs[i].text();
        out.append(t.as_str());
        proof {
            assert(refs@[i as int].node() == sr[i as int]);
            assert(tv[i as int] == t@);
            assert(tv.take(i + 1).drop_last() =~= tv.take(i as int));
            if i == 0 {
                assert(tv.take(1) =~= seq![t@]);
            }
        }
        i = i + 1;
    }
    assert(tv.take(tv.len() as int) =~= tv);
    out.append(" ]");
}

fn print_attr(out: &mut String, a: &crate::ast::Attr)
    ensures
        final(out)@ == old(out)@ + fmt_attr(a.node()),
{
    proof {
        reveal_strlit(" = ");
    }
    match a.key_text() {
        Some(k) => out.append(k.as_str()),
        None => {},
    }
    out.append(" = ");
    match a.value() {
        Some(v) => match v.bare_text() {
            Some(t) => out.append(t.as_str()),
            None => match v.ref_list() {
                Some(rl) => print_ref_list(out, &rl),
                None => {},
            },
        },
        None => {},
    }
}

fn print_attrs_of(out: &mut String, node: &Node, n: usize)
    requires
        n < usize::MAX,
    ensures
        final(out)@ == old(out)@ + fmt_attrs_of(*node, n as nat),
{
    proof {
        reveal_strlit(" ( ");
        reveal_strlit(" )");
        reveal_strlit(" (");
        reveal_strlit(")");
        reveal_strlit(",");
        reveal_strlit("\n");
    }
    let al = match attr_list_of(node) {
        Some(al) => al,
        None => return,
    };
    let attrs = al.attrs();
    let ghost sa = spec_child_nodes(al.node().children@, SyntaxKind::Attr);
    assert(attrs@.len() == sa.len());
    if attrs.len() == 1 {
        out.append(" ( ");
        print_attr(out, &attrs[0]);
        out.append(" )");
        assert(attrs@[0].node() == sa[0]);
    } else {
        out.append(" (");
        let ghost h = out@;
        let mut i: usize = 0;
        while i < attrs.len()
            invariant
                0 <= i <= attrs@.len(),
                n < usize::MAX,
                attrs@.len() == sa.len(),
                forall|j: int| 0 <= j < attrs@.len() ==> #[trigger] attrs@[j].node() == sa[j],
                out@ == h + attrs_multiline(sa.take(i as int), (n + 1) as nat),
            decreases attrs@.len() - i,
        {
            out.append("\n");
            push_indent(out, n + 1);
            print_attr(out, &attrs[i]);
            out.append(",");
            assert(attrs@[i as int].node() == sa[i as int]);
            assert(sa.take(i + 1).drop_last() =~= sa.take(i as int));
            i = i + 1;
        }
        assert(sa.take(sa.len() as int) =~= sa);
        out.append("\n");
        push_indent(out, n);
        out.append(")");
    }
}

// ─── steps, jobs, templates ──────────────────────────────────────────────────

pub open spec fn shell_or_empty(n: Node) -> Seq<char> {
    match spec_shell(n) {
        Some(s) => s,
        None => Seq::empty(),
    }
}

/// `step name { ... }`, or `step name,` for a bare reference.
pub open spec fn fmt_step(s: Node, n: nat) -> Seq<char> {
    "step "@ + name_or_empty(s) + if spec_shell(s) is Some {
        " "@ + fmt_brace(shell_or_empty(s), n)
    } else {
        ","@
    }
}

/// The entries of a step list among `es`, each on a line of its own.
pub open spec fn step_entries(es: Seq<Element>, n: nat) -> Seq<char>
    decreases es.len(),
{
    if es.len() == 0 {
        Seq::empty()
    } else {
        step_entries(es.drop_last(), n) + match es.last() {
            Element::Node(c) => if c.kind == SyntaxKind::Step {
                "\n"@ + ind(n) + fmt_step(c, n)
            } else if c.kind == SyntaxKind::StepsKeyword {
                "\n"@ + ind(n) + "steps,"@
            } else {
                Seq::empty()
            },
            Element::Token(_) => Seq::empty(),
        }
    }
}

/// A step list: `[`, the entries one level in, `]`.
pub open spec fn fmt_steps_body(b: Node, n: nat) -> Seq<char> {
    "["@ + step_entries(b.children@, n + 1) + "\n"@ + ind(n) + "]"@
}

fn print_step(out: &mut String, s: &Node, n: usize)
    requires
        n < usize::MAX,
    ensures
        final(out)@ == old(out)@ + fmt_step(*s, n as nat),
{
    proof {
        reveal_strlit("step ");
        reveal_strlit(" ");
        reveal_strlit(",");
    }
    out.append("step ");
    match name_of(s) {
        Some(name) => out.append(name.as_str()),
        None => {},
    }
    match s.child_token(SyntaxKind::ShellBody) {
        Some(t) => {
            out.append(" ");
            print_brace_body(out, t.text.as_str(), n);
        },
        None => {
            out.append(",");
        },
    }
}

fn print_steps_body(out: &mut String, b: &Node, n: usize)
    requires
        n + 1 < usize::MAX,
    ensures
        final(out)@ == old(out)@ + fmt_steps_body(*b, n as nat),
{
    proof {
        reveal_strlit("[");
        reveal_strlit("]");
        reveal_strlit("\n");
        reveal_strlit("steps,");
    }
    out.append("[");
    let ghost h = out@;
    let es = &b.children;
    let mut i: usize = 0;
    while i < es.len()
        invariant
            0 <= i <= es@.len(),
            n + 1 < usize::MAX,
            es@ == b.children@,
            out@ == h + step_entries(es@.take(i as int), (n + 1) as nat),
        decreases es@.len() - i,
    {
        assert(es@.take(i + 1).drop_last() =~= es@.take(i as int));
        assert(es@.take(i + 1).last() == es@[i as int]);
        match &es[i] {
            Element::Node(c) => {
                if c.kind == SyntaxKind::Step {
                    out.append("\n");
                    push_indent(out, n + 1);
                    print_step(out, c, n + 1);
                } else if c.kind == SyntaxKind::StepsKeyword {
                    out.append("\n");
                    push_indent(out, n + 1);
                    out.append("steps,");
                }
            },
            Element::Token(_) => {},
        }
        i = i + 1;
    }
    assert(es@.take(es@.len() as int) =~= es@);
    out.append("\n");
    push_indent(out, n);
    out.append("]");
}

/// `job name (attrs) body`.
pub open spec fn fmt_job(j: Node, n: nat) -> Seq<char> {
    "job "@ + name_or_empty(j) + fmt_attrs_of(j, n) + fmt_job_body(j, n) + fmt_return(j)
}

/// A job's body: ` { ... }` or ` [ ... ]`.
pub open spec fn fmt_job_body(j: Node, n: nat) -> Seq<char> {
    match spec_child_node(j, SyntaxKind::JobBodyInline) {
        Some(inline) => " "@ + fmt_brace(shell_or_empty(inline), n),
        None => match spec_child_node(j, SyntaxKind::JobBodySteps) {
            Some(b) => " "@ + fmt_steps_body(b, n),
            None => Seq::empty(),
        },
    }
}

/// `template name (attrs) body`.
pub open spec fn fmt_template(t: Node, n: nat) -> Seq<char> {
    "template "@ + name_or_empty(t) + fmt_attrs_of(t, n) + match spec_child_node(t, SyntaxKind::JobBodySteps) {
        Some(b) => " "@ + fmt_steps_body(b, n),
        None => Seq::empty(),
    } + fmt_return(t)
}

/// A path list: `[ a, $B ]`, or `[]` when it is empty.
pub open spec fn fmt_path_list(pl: Node) -> Seq<char> {
    let items = crate::ast::path_texts(spec_child_nodes(pl.children@, SyntaxKind::PathItem));
    if items.len() == 0 {
        "[]"@
    } else {
        "[ "@ + join_comma(items) + " ]"@
    }
}

/// ` -> [ ... ]` when the job or template `n` has a return annotation.
pub open spec fn fmt_return(n: Node) -> Seq<char> {
    match spec_child_node(n, SyntaxKind::ReturnAnnotation) {
        Some(ra) => " -> "@ + match spec_child_node(ra, SyntaxKind::PathList) {
            Some(pl) => fmt_path_list(pl),
            None => "[]"@,
        },
        None => Seq::empty(),
    }
}

fn print_return(out: &mut String, n: &Node)
    ensures
        final(out)@ == old(out)@ + fmt_return(*n),
{
    proof {
        reveal_strlit(" -> ");
        reveal_strlit("[]");
        reveal_strlit("[ ");
        reveal_strlit(" ]");
        reveal_strlit(", ");
    }
    let ra = match n.child_node(SyntaxKind::ReturnAnnotation) {
        Some(ra) => ra,
        None => {
            assert(out@ =~= out@ + Seq::<char>::empty());
            return;
        },
    };
    out.append(" -> ");
    let pl = match ra.child_node(SyntaxKind::PathList) {
        Some(pl) => pl,
        None => {
            out.append("[]");
            return;
        },
    };
    let items = pl.child_nodes(SyntaxKind::PathItem);
    let ghost si = spec_child_nodes(pl.children@, SyntaxKind::PathItem);
    let ghost h = out@;
    let mut texts: Vec<String> = Vec::new();
    let mut i: usize = 0;
    while i < items.len()
        invariant
            0 <= i <= items@.len(),
            items@.len() == si.len(),
            forall|j: int| 0 <= j < items@.len() ==> *items@[j] == si[j],
            crate::ir::strs_view(texts@) == crate::ast::path_texts(si.take(i as int)),
        decreases items@.len() - i,
    {
        let ghost before = crate::ir::strs_view(texts@);
        assert(si.take(i + 1).drop_last() =~= si.take(i as int));
        assert(si.take(i + 1).last() == si[i as int]);
        match items[i].child_token(SyntaxKind::PathValue) {
            Some(t) => {
                texts.push(t.text.clone());
                assert(crate::ir::strs_view(texts@) =~= before.push(t.text@));
            },
            None => {
                assert(before + Seq::<Seq<char>>::empty() =~= before);
            },
        }
        i = i + 1;
    }
    assert(si.take(si.len() as int) =~= si);
    let ghost tv = crate::ir::strs_view(texts@);
    if texts.len() == 0 {
        out.append("[]");
        return;
    }
    out.append("[ ");
    let ghost h2 = out@;
    let mut k: usize = 0;
    while k < texts.len()
        invariant
            0 <= k <= texts@.len(),
            tv == crate::ir::strs_view(texts@),
            out@ == h2 + join_comma(tv.take(k as int)),
        decreases texts@.len() - k,
    {
        if k > 0 {
            out.append(", ");
        }
        out.append(texts[k].as_str());
        proof {
            assert(tv[k as int] == texts@[k as int]@);
            assert(tv.take(k + 1).drop_last() =~= tv.take(k as int));
            if k == 0 {
                assert(tv.take(1) =~= seq![texts@[0]@]);
            }
        }
        k = k + 1;
    }
    assert(tv.take(tv.len() as int) =~= tv);
    out.append(" ]");
}

fn print_job(out: &mut String, j: &Node, n: usize)
    requires
        n < 100,
    ensures
        final(out)@ == old(out)@ + fmt_job(*j, n as nat),
{
    proof {
        reveal_strlit("job ");
    }
    out.append("job ");
    match name_of(j) {
        Some(name) => out.append(name.as_str()),
        None => {},
    }
    print_attrs_of(out, j, n);
    print_job_body(out, j, n);
    print_return(out, j);
}

fn print_job_body(out: &mut String, j: &Node, n: usize)
    requires
        n < 100,
    ensures
        final(out)@ == old(out)@ + fmt_job_body(*j, n as nat),
{
    proof {
        reveal_strlit(" ");
    }
    match j.child_node(SyntaxKind::JobBodyInline) {
        Some(inline) => {
            out.append(" ");
            match inline.child_token(SyntaxKind::ShellBody) {
                Some(t) => print_brace_body(out, t.text.as_str(), n),
                None => print_brace_body(out, "", n),
            }
            proof {
                reveal_strlit("");
            }
        },
        None => match j.child_node(SyntaxKind::JobBodySteps) {
            Some(b) => {
                out.append(" ");
                print_steps_body(out, b, n);
            },
            None => {
                assert(out@ =~= out@ + Seq::<char>::empty());
            },
        },
    }
}

fn print_template(out: &mut String, t: &Node, n: usize)
    requires
        n < 100,
    ensures
        final(out)@ == old(out)@ + fmt_template(*t, n as nat),
{
    proof {
        reveal_strlit("template ");
        reveal_strlit(" ");
    }
    out.append("template ");
    match name_of(t) {
        Some(name) => out.append(name.as_str()),
        None => {},
    }
    print_attrs_of(out, t, n);
    match t.child_node(SyntaxKind::JobBodySteps) {
        Some(b) => {
            out.append(" ");
            print_steps_body(out, b, n);
        },
        None => {},
    }
    print_return(out, t);
}


// ─── stages and workflows ────────────────────────────────────────────────────

/// The number of child nodes of `es` whose kind is one of a body's items.
pub open spec fn item_count(es: Seq<Element>, in_stage: bool) -> nat
    decreases es.len(),
{
    if es.len() == 0 {
        0
    } else {
        item_count(es.drop_last(), in_stage) + if is_item(es.last(), in_stage) { 1nat } else { 0nat }
    }
}

/// `e` is an item of a stage body (a job or a template), or of a workflow
/// body (an import, a stage or a template).
pub open spec fn is_item(e: Element, in_stage: bool) -> bool {
    match e {
        Element::Node(c) => if in_stage {
            c.kind == SyntaxKind::Job || c.kind == SyntaxKind::TemplateDef
        } else {
            c.kind == SyntaxKind::UseDecl || c.kind == SyntaxKind::Stage || c.kind == SyntaxKind::TemplateDef
        },
        Element::Token(_) => false,
    }
}

/// The items of a stage body, each on a line of its own, a blank line
/// between them.
pub open spec fn stage_items(es: Seq<Element>, n: nat) -> Seq<char>
    decreases es.len(),
{
    if es.len() == 0 {
        Seq::empty()
    } else {
        stage_items(es.drop_last(), n) + if is_item(es.last(), true) {
            (if item_count(es.drop_last(), true) > 0 { "\n"@ } else { Seq::empty() }) + "\n"@ + ind(n)
                + match es.last() {
                    Element::Node(c) => if c.kind == SyntaxKind::Job { fmt_job(c, n) } else { fmt_template(c, n) },
                    Element::Token(_) => Seq::empty(),
                }
        } else {
            Seq::empty()
        }
    }
}

/// `stage name (attrs) { ... }`.
pub open spec fn fmt_stage(s: Node, n: nat) -> Seq<char> {
    "stage "@ + name_or_empty(s) + fmt_attrs_of(s, n) + " {"@ + match spec_child_node(s, SyntaxKind::StageBody) {
        Some(b) => stage_items(b.children@, n + 1),
        None => Seq::empty(),
    } + "\n"@ + ind(n) + "}"@
}

/// `use name (attrs)`.
pub open spec fn fmt_use(u: Node, n: nat) -> Seq<char> {
    "use "@ + name_or_empty(u) + fmt_attrs_of(u, n)
}

pub open spec fn fmt_workflow_item(c: Node, n: nat) -> Seq<char> {
    if c.kind == SyntaxKind::UseDecl {
        fmt_use(c, n)
    } else if c.kind == SyntaxKind::Stage {
        fmt_stage(c, n)
    } else {
        fmt_template(c, n)
    }
}

/// The items of a braced workflow body, each on a line of its own, a blank
/// line between them.
pub open spec fn braced_items(es: Seq<Element>, n: nat) -> Seq<char>
    decreases es.len(),
{
    if es.len() == 0 {
        Seq::empty()
    } else {
        braced_items(es.drop_last(), n) + if is_item(es.last(), false) {
            (if item_count(es.drop_last(), false) > 0 { "\n"@ } else { Seq::empty() }) + "\n"@ + ind(n)
                + match es.last() {
                    Element::Node(c) => fmt_workflow_item(c, n),
                    Element::Token(_) => Seq::empty(),
                }
        } else {
            Seq::empty()
        }
    }
}

/// The items of a workflow body without braces, each after a blank line.
pub open spec fn unbraced_items(es: Seq<Element>) -> Seq<char>
    decreases es.len(),
{
    if es.len() == 0 {
        Seq::empty()
    } else {
        unbraced_items(es.drop_last()) + if is_item(es.last(), false) {
            "\n\n"@ + match es.last() {
                Element::Node(c) => fmt_workflow_item(c, 0),
                Element::Token(_) => Seq::empty(),
            }
        } else {
            Seq::empty()
        }
    }
}

/// A workflow holds a `defaults` block, which can't be formatted.
pub open spec fn has_defaults(w: Node) -> bool {
    match spec_child_node(w, SyntaxKind::WorkflowBody) {
        Some(b) => spec_child_node(b, SyntaxKind::AttrList) is Some,
        None => false,
    }
}

/// `workflow name (attrs)` and its body, braced or not.
pub open spec fn fmt_workflow(w: Node) -> Seq<char> {
    "workflow "@ + name_or_empty(w) + fmt_attrs_of(w, 0) + match spec_child_node(w, SyntaxKind::WorkflowBody) {
        Some(b) => if spec_child_token(b, SyntaxKind::LBrace) is Some {
            " {"@ + braced_items(b.children@, 1) + "\n"@ + ind(0) + "}"@
        } else {
            unbraced_items(b.children@)
        },
        None => Seq::empty(),
    }
}

/// A job or template of a stage body, after `count` others.
fn print_stage_item(out: &mut String, c: &Node, n: usize, count: usize)
    requires
        n < 100,
    ensures
        final(out)@ == old(out)@ + ((if count > 0 { "\n"@ } else { Seq::empty() }) + "\n"@ + ind(n as nat) + if c.kind
            == SyntaxKind::Job {
            fmt_job(*c, n as nat)
        } else {
            fmt_template(*c, n as nat)
        }),
{
    proof {
        reveal_strlit("\n");
    }
    let ghost h = out@;
    if count > 0 {
        out.append("\n");
    }
    out.append("\n");
    push_indent(out, n);
    if c.kind == SyntaxKind::Job {
        print_job(out, c, n);
    } else {
        print_template(out, c, n);
    }
    assert(out@ =~= h + ((if count > 0 { "\n"@ } else { Seq::empty() }) + "\n"@ + ind(n as nat) + if c.kind
        == SyntaxKind::Job {
        fmt_job(*c, n as nat)
    } else {
        fmt_template(*c, n as nat)
    }));
}

/// The items of a stage body among `es`.
fn print_stage_items(out: &mut String, es: &Vec<Element>, n: usize)
    requires
        n < 100,
    ensures
        final(out)@ == old(out)@ + stage_items(es@, n as nat),
{
    let ghost h = out@;
    let mut count: usize = 0;
    let mut i: usize = 0;
    while i < es.len()
        invariant
            0 <= i <= es@.len(),
            n < 100,
            count <= i,
            count == item_count(es@.take(i as int), true),
            out@ == h + stage_items(es@.take(i as int), n as nat),
        decreases es@.len() - i,
    {
        assert(es@.take(i + 1).drop_last() =~= es@.take(i as int));
        assert(es@.take(i + 1).last() == es@[i as int]);
        let ghost before = out@;
        match &es[i] {
            Element::Node(c) => {
                if c.kind == SyntaxKind::Job || c.kind == SyntaxKind::TemplateDef {
                    print_stage_item(out, c, n, count);
                    count = count + 1;
                    assert(out@ =~= h + stage_items(es@.take(i + 1), n as nat));
                }
            },
            Element::Token(_) => {},
        }
        i = i + 1;
    }
    assert(es@.take(es@.len() as int) =~= es@);
}

fn print_stage(out: &mut String, s: &Node, n: usize)
    requires
        n < 50,
    ensures
        final(out)@ == old(out)@ + fmt_stage(*s, n as nat),
{
    proof {
        reveal_strlit("stage ");
        reveal_strlit(" {");
        reveal_strlit("\n");
        reveal_strlit("}");
    }
    out.append("stage ");
    match name_of(s) {
        Some(name) => out.append(name.as_str()),
        None => {},
    }
    print_attrs_of(out, s, n);
    out.append(" {");
    match s.child_node(SyntaxKind::StageBody) {
        Some(b) => print_stage_items(out, &b.children, n + 1),
        None => {},
    }
    out.append("\n");
    push_indent(out, n);
    out.append("}");
}

/// An item of a workflow body.
fn print_workflow_item(out: &mut String, c: &Node, n: usize)
    requires
        n < 50,
    ensures
        final(out)@ == old(out)@ + fmt_workflow_item(*c, n as nat),
{
    if c.kind == SyntaxKind::UseDecl {
        proof {
            reveal_strlit("use ");
        }
        out.append("use ");
        match name_of(c) {
            Some(name) => out.append(name.as_str()),
            None => {},
        }
        print_attrs_of(out, c, n);
    } else if c.kind == SyntaxKind::Stage {
        print_stage(out, c, n);
    } else {
        print_template(out, c, n);
    }
}

/// The items of a braced workflow body among `es`.
fn print_workflow_items(out: &mut String, es: &Vec<Element>, n: usize)
    requires
        n < 50,
    ensures
        final(out)@ == old(out)@ + braced_items(es@, n as nat),
{
    proof {
        reveal_strlit("\n");
    }
    let ghost h = out@;
    let mut count: usize = 0;
    let mut i: usize = 0;
    while i < es.len()
        invariant
            0 <= i <= es@.len(),
            n < 50,
            count <= i,
            count == item_count(es@.take(i as int), false),
            out@ == h + braced_items(es@.take(i as int), n as nat),
        decreases es@.len() - i,
    {
        assert(es@.take(i + 1).drop_last() =~= es@.take(i as int));
        assert(es@.take(i + 1).last() == es@[i as int]);
        match &es[i] {
            Element::Node(c) => {
                if c.kind == SyntaxKind::UseDecl || c.kind == SyntaxKind::Stage || c.kind == SyntaxKind::TemplateDef {
                    if count > 0 {
                        out.append("\n");
                    }
                    out.append("\n");
                    push_indent(out, n);
                    print_workflow_item(out, c, n);
                    count = count + 1;
                }
            },
            Element::Token(_) => {},
        }
        i = i + 1;
    }
    assert(es@.take(es@.len() as int) =~= es@);
}

fn print_workflow(out: &mut String, w: &Node) -> (r: Result<(), FormatError>)
    ensures
        r is Err <==> has_defaults(*w),
        r matches Err(e) ==> e == FormatError::DefaultsBlockUnsupported,
        r is Ok ==> final(out)@ == old(out)@ + fmt_workflow(*w),
{
    proof {
        reveal_strlit("workflow ");
        reveal_strlit(" {");
        reveal_strlit("\n");
        reveal_strlit("}");
        reveal_strlit("\n\n");
    }
    out.append("workflow ");
    match name_of(w) {
        Some(name) => out.append(name.as_str()),
        None => {},
    }
    print_attrs_of(out, w, 0);
    let body = match w.child_node(SyntaxKind::WorkflowBody) {
        Some(b) => b,
        None => return Ok(()),
    };
    if body.child_node(SyntaxKind::AttrList).is_some() {
        return Err(FormatError::DefaultsBlockUnsupported);
    }
    if body.child_token(SyntaxKind::LBrace).is_some() {
        out.append(" {");
        print_workflow_items(out, &body.children, 1);
        out.append("\n");
        push_indent(out, 0);
        out.append("}");
    } else {
        let es = &body.children;
        let ghost h = out@;
        let mut i: usize = 0;
        while i < es.len()
            invariant
                0 <= i <= es@.len(),
                out@ == h + unbraced_items(es@.take(i as int)),
            decreases es@.len() - i,
        {
            assert(es@.take(i + 1).drop_last() =~= es@.take(i as int));
            assert(es@.take(i + 1).last() == es@[i as int]);
            match &es[i] {
                Element::Node(c) => {
                    if c.kind == SyntaxKind::UseDecl || c.kind == SyntaxKind::Stage || c.kind == SyntaxKind::TemplateDef {
                        out.append("\n\n");
                        print_workflow_item(out, c, 0);
                    }
                },
                Element::Token(_) => {},
            }
            i = i + 1;
        }
        assert(es@.take(es@.len() as int) =~= es@);
    }
    Ok(())
}

/// The workflows of a file, formatted, a blank line between them.
pub open spec fn fmt_workflows(defs: Seq<Node>) -> Seq<char>
    decreases defs.len(),
{
    if defs.len() == 0 {
        Seq::empty()
    } else if defs.len() == 1 {
        fmt_workflow(defs[0])
    } else {
        fmt_workflows(defs.drop_last()) + "\n\n"@ + fmt_workflow(defs.last())
    }
}

/// What formatting a file gives: each workflow formatted, a blank line
/// between them and a newline at the end; or the refusal to format a file
/// with a `defaults` block.
pub open spec fn spec_format(root: Node) -> Result<Seq<char>, FormatError> {
    let defs = spec_child_nodes(root.children@, SyntaxKind::WorkflowDef);
    if exists|i: int| 0 <= i < defs.len() && has_defaults(#[trigger] defs[i]) {
        Err(FormatError::DefaultsBlockUnsupported)
    } else {
        Ok(fmt_workflows(defs) + "\n"@)
    }
}

/// Format a parsed `ciane` source file into canonical text.
///
/// Fails with `DefaultsBlockUnsupported` if the file contains a `defaults`
/// block, which cannot be safely formatted without losing content.
pub fn format(root: &Root) -> (r: Result<String, FormatError>)
    ensures
        match (r, spec_format(root.node())) {
            (Ok(s), Ok(t)) => s@ == t,
            (Err(e), Err(f)) => e == f,
            _ => false,
        },
{
    proof {
        reveal_strlit("\n\n");
        reveal_strlit("\n");
    }
    let defs = root.workflow_defs();
    let ghost sd = spec_child_nodes(root.node().children@, SyntaxKind::WorkflowDef);
    let mut out = String::new();
    let mut i: usize = 0;
    while i < defs.len()
        invariant
            0 <= i <= defs@.len(),
            sd == spec_child_nodes(root.node().children@, SyntaxKind::WorkflowDef),
            defs@.len() == sd.len(),
            forall|j: int| 0 <= j < defs@.len() ==> #[trigger] defs@[j].node() == sd[j],
            forall|j: int| 0 <= j < i ==> !has_defaults(#[trigger] sd[j]),
            out@ == fmt_workflows(sd.take(i as int)),
        decreases defs@.len() - i,
    {
        assert(sd.take(i + 1).drop_last() =~= sd.take(i as int));
        assert(defs@[i as int].node() == sd[i as int]);
        if i > 0 {
            out.append("\n\n");
        }
        let ghost before = out@;
        match print_workflow(&mut out, defs[i].syntax()) {
            Ok(()) => {},
            Err(e) => {
                assert(has_defaults(sd[i as int]));
                assert(exists|j: int| 0 <= j < sd.len() && has_defaults(#[trigger] sd[j]));
                assert(spec_format(root.node()) == Err::<Seq<char>, FormatError>(FormatError::DefaultsBlockUnsupported));
                assert(e == FormatError::DefaultsBlockUnsupported);
                return Err(e);
            },
        }
        proof {
            if i == 0 {
                assert(sd.take(1) =~= seq![sd[0]]);
            }
        }
        i = i + 1;
    }
    assert(sd.take(sd.len() as int) =~= sd);
    out.append("\n");
    Ok(out)
}

} // verus!

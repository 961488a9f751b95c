use vstd::prelude::*;

pub mod templates;
pub mod symbols;
pub mod definition;
pub mod references;
pub mod rename;
pub mod document;

use crate::ast::{AstNode, spec_attr_value, spec_key_token, spec_name};
use crate::cst::{Element, Node, Token, spec_child_node, spec_child_nodes};
use crate::syntax::SyntaxKind;
use crate::text::chars_of;

verus! {

// ─── positions ───────────────────────────────────────────────────────────────

/// A position in a text: the line, and the column within it, both counted
/// from zero. The column counts characters (Unicode scalar values), not
/// UTF-8 bytes, as every offset in this library does.
#[derive(Debug, Clone, Copy, PartialEq, Eq, Structural)]
pub struct Position {
    pub line: usize,
    pub character: usize,
}

/// The number of newlines in `s[..k]`.
pub open spec fn newlines(s: Seq<char>, k: int) -> nat
    decreases k,
{
    if k <= 0 || k > s.len() {
        0
    } else {
        newlines(s, k - 1) + if s[k - 1] == '\n' { 1nat } else { 0nat }
    }
}

/// Where the line holding offset `k` starts: just after the last newline
/// before `k`, or at zero.
pub open spec fn line_start(s: Seq<char>, k: int) -> int
    decreases k,
{
    if k <= 0 || k > s.len() {
        0
    } else if s[k - 1] == '\n' {
        k
    } else {
        line_start(s, k - 1)
    }
}

pub open spec fn clamp(k: int, n: int) -> int {
    if k < n { k } else { n }
}

/// The position of offset `k` (clamped to the end of the text).
pub open spec fn spec_offset_to_position(s: Seq<char>, k: int) -> (int, int) {
    let c = clamp(k, s.len() as int);
    (newlines(s, c) as int, c - line_start(s, c))
}

proof fn lemma_line_start(s: Seq<char>, k: int)
    requires
        0 <= k <= s.len(),
    ensures
        0 <= line_start(s, k) <= k,
        line_start(s, k) > 0 ==> s[line_start(s, k) - 1] == '\n',
        forall|j: int| line_start(s, k) <= j < k ==> s[j] != '\n',
        newlines(s, line_start(s, k)) == newlines(s, k),
    decreases k,
{
    if k > 0 && s[k - 1] != '\n' {
        lemma_line_start(s, k - 1);
    }
}

/// The position of a character offset.
pub fn offset_to_position(source: &str, offset: usize) -> (r: Position)
    ensures
        (r.line as int, r.character as int) == spec_offset_to_position(source@, offset as int),
{
    let cs = chars_of(source);
    let c = if offset < cs.len() { offset } else { cs.len() };
    let mut line: usize = 0;
    let mut start: usize = 0;
    let mut i: usize = 0;
    while i < c
        invariant
            0 <= i <= c <= cs@.len(),
            cs@ == source@,
            line == newlines(cs@, i as int),
            line <= i,
            start == line_start(cs@, i as int),
        decreases c - i,
    {
        if cs[i] == '\n' {
            line = line + 1;
            start = i + 1;
        }
        i = i + 1;
    }
    proof {
        lemma_line_start(cs@, c as int);
    }
    Position { line, character: c - start }
}

/// The offset of the start of line `l`: just after the `l`th newline, or
/// none when the text has fewer lines.
pub open spec fn nth_line_start(s: Seq<char>, l: int, from: int, seen: int) -> Option<int>
    decreases s.len() - from,
{
    if seen == l {
        Some(from)
    } else if from < 0 || from >= s.len() {
        None
    } else if s[from] == '\n' {
        nth_line_start(s, l, from + 1, seen + 1)
    } else {
        nth_line_start(s, l, from + 1, seen)
    }
}

/// The offset where the line starting at `st` ends: its newline, or the end.
pub open spec fn line_end(s: Seq<char>, st: int) -> int
    decreases s.len() - st,
{
    if st < 0 || st >= s.len() {
        s.len() as int
    } else if s[st] == '\n' {
        st
    } else {
        line_end(s, st + 1)
    }
}

/// The offset of a position: on its line, clamped to the line's end; the
/// end of the text for a line past the last one.
pub open spec fn spec_position_to_offset(s: Seq<char>, line: int, character: int) -> int {
    match nth_line_start(s, line, 0, 0) {
        None => s.len() as int,
        Some(st) => st + clamp(character, line_end(s, st) - st),
    }
}

proof fn lemma_line_end(s: Seq<char>, st: int)
    requires
        0 <= st <= s.len(),
    ensures
        st <= line_end(s, st) <= s.len(),
        forall|j: int| st <= j < line_end(s, st) ==> s[j] != '\n',
        line_end(s, st) < s.len() ==> s[line_end(s, st)] == '\n',
    decreases s.len() - st,
{
    if st < s.len() && s[st] != '\n' {
        lemma_line_end(s, st + 1);
    }
}

/// The character offset of a position.
pub fn position_to_offset(source: &str, pos: Position) -> (r: usize)
    ensures
        r as int == spec_position_to_offset(source@, pos.line as int, pos.character as int),
{
    let cs = chars_of(source);
    let mut current_line: usize = 0;
    let mut i: usize = 0;
    // Find the start of line `pos.line`.
    while current_line < pos.line && i < cs.len()
        invariant
            0 <= i <= cs@.len(),
            cs@ == source@,
            current_line <= pos.line,
            nth_line_start(cs@, pos.line as int, 0, 0) == nth_line_start(cs@, pos.line as int, i as int, current_line as int),
        decreases cs@.len() - i,
    {
        if cs[i] == '\n' {
            current_line = current_line + 1;
        }
        i = i + 1;
    }
    if current_line < pos.line {
        return cs.len();
    }
    let st = i;
    let mut e = st;
    while e < cs.len() && cs[e] != '\n'
        invariant
            st <= e <= cs@.len(),
            line_end(cs@, st as int) == line_end(cs@, e as int),
        decreases cs@.len() - e,
    {
        e = e + 1;
    }
    let len = e - st;
    st + if pos.character < len { pos.character } else { len }
}

/// Going from an offset to its position and back gives the offset again,
/// for every offset within the text.
pub proof fn lemma_position_round_trip(s: Seq<char>, k: int)
    requires
        0 <= k <= s.len(),
    ensures
        ({
            let p = spec_offset_to_position(s, k);
            spec_position_to_offset(s, p.0, p.1) == k
        }),
{
    lemma_line_start(s, k);
    let st = line_start(s, k);
    lemma_nth_line_start(s, st, 0, 0);
    lemma_line_end(s, st);
    lemma_line_end_after(s, st, k);
}

/// The line holding `st`, a line start, is found by counting newlines.
proof fn lemma_nth_line_start(s: Seq<char>, st: int, from: int, seen: int)
    requires
        0 <= from <= st <= s.len(),
        st == 0 || s[st - 1] == '\n',
        seen == newlines(s, from),
        from == 0 || s[from - 1] == '\n' || from <= st,
    ensures
        nth_line_start(s, newlines(s, st) as int, from, seen) == Some(st),
    decreases st - from,
{
    lemma_newlines_monotone(s, from, st);
    if seen == newlines(s, st) {
        // No newline between `from` and `st`: they are the same line start.
        if from < st {
            assert(s[st - 1] != '\n');
        }
    } else {
        assert(from < st);
        if s[from] == '\n' {
            assert(newlines(s, from + 1) == seen + 1);
        } else {
            assert(newlines(s, from + 1) == seen);
        }
        lemma_nth_line_start(s, st, from + 1, newlines(s, from + 1) as int);
    }
}

proof fn lemma_newlines_monotone(s: Seq<char>, a: int, b: int)
    requires
        0 <= a <= b <= s.len(),
    ensures
        newlines(s, a) <= newlines(s, b),
        newlines(s, a) == newlines(s, b) ==> forall|j: int| a <= j < b ==> s[j] != '\n',
    decreases b - a,
{
    if a < b {
        lemma_newlines_monotone(s, a, b - 1);
    }
}

proof fn lemma_line_end_after(s: Seq<char>, st: int, k: int)
    requires
        0 <= st <= k <= s.len(),
        forall|j: int| st <= j < k ==> s[j] != '\n',
    ensures
        line_end(s, st) >= k,
    decreases k - st,
{
    lemma_line_end(s, st);
    if st < k {
        assert(s[st] != '\n');
        lemma_line_end_after(s, st + 1, k);
        assert(line_end(s, st) == line_end(s, st + 1));
    }
}



// ─── ranges ──────────────────────────────────────────────────────────────────

/// A run of characters of a source text, `start..end`.
#[derive(Debug, Clone, Copy, PartialEq, Eq, Structural)]
pub struct TextRange {
    pub start: usize,
    pub end: usize,
}

/// A run of a text between two positions.
#[derive(Debug, Clone, Copy, PartialEq, Eq, Structural)]
pub struct Range {
    pub start: Position,
    pub end: Position,
}

/// `x`, or the largest `usize` where `x` is larger.
pub open spec fn sat(x: int) -> usize {
    if x <= usize::MAX {
        x as usize
    } else {
        usize::MAX
    }
}

/// The characters a token covers.
pub open spec fn spec_token_range(t: Token) -> TextRange {
    TextRange { start: t.start, end: sat(t.start + t.text@.len()) }
}

/// The characters a node covers.
pub open spec fn spec_node_range(n: Node) -> TextRange {
    TextRange { start: n.start, end: n.end }
}

pub open spec fn spec_position(s: Seq<char>, k: int) -> Position {
    let p = spec_offset_to_position(s, k);
    Position { line: p.0 as usize, character: p.1 as usize }
}

pub open spec fn spec_range(s: Seq<char>, r: TextRange) -> Range {
    Range { start: spec_position(s, r.start as int), end: spec_position(s, r.end as int) }
}

/// The characters `t` covers.
pub fn token_range(t: &Token) -> (r: TextRange)
    ensures
        r == spec_token_range(*t),
{
    let len = t.text.unicode_len();
    TextRange { start: t.start, end: t.start.saturating_add(len) }
}

/// The characters `n` covers.
pub fn node_range(n: &Node) -> (r: TextRange)
    ensures
        r == spec_node_range(*n),
{
    TextRange { start: n.start, end: n.end }
}

/// The lines and columns of a run of characters of `source`.
pub fn range_to_lsp(source: &str, range: TextRange) -> (r: Range)
    ensures
        r == spec_range(source@, range),
{
    let start = offset_to_position(source, range.start);
    let end = offset_to_position(source, range.end);
    Range { start, end }
}

/// The results of `f` for each of `s`, one after the other.
pub open spec fn concat_map<A, B>(s: Seq<A>, f: spec_fn(A) -> Seq<B>) -> Seq<B>
    decreases s.len(),
{
    if s.len() == 0 {
        Seq::empty()
    } else {
        concat_map(s.drop_last(), f) + f(s.last())
    }
}

pub proof fn lemma_concat_map_step<A, B>(s: Seq<A>, f: spec_fn(A) -> Seq<B>, i: int)
    requires
        0 <= i < s.len(),
    ensures
        concat_map(s.take(i + 1), f) == concat_map(s.take(i), f) + f(s[i]),
{
    assert(s.take(i + 1).drop_last() =~= s.take(i));
}

pub proof fn lemma_concat_map_whole<A, B>(s: Seq<A>, f: spec_fn(A) -> Seq<B>)
    ensures
        concat_map(s.take(s.len() as int), f) == concat_map(s, f),
{
    assert(s.take(s.len() as int) =~= s);
}

/// The `k`th node above the token whose ancestors are `p`: its parent for 0.
pub open spec fn up(p: Seq<&Node>, k: int) -> Option<Node> {
    if 0 <= k < p.len() {
        Some(*p[p.len() - 1 - k])
    } else {
        None
    }
}

pub open spec fn kind_up(p: Seq<&Node>, k: int) -> Option<SyntaxKind> {
    match up(p, k) {
        Some(n) => Some(n.kind),
        None => None,
    }
}

/// The kind of the `k`th node above a located token.
pub fn kind_above(p: &Vec<&Node>, k: usize) -> (r: Option<SyntaxKind>)
    ensures
        r == kind_up(p@, k as int),
{
    if k < p.len() {
        Some(p[p.len() - 1 - k].kind)
    } else {
        None
    }
}

/// The name of the innermost stage among `p[..=i]`.
pub open spec fn stage_name_at(p: Seq<&Node>, i: int) -> Option<Seq<char>> {
    let j = nearest_stage(p, i);
    if j >= 0 {
        spec_name(*p[j])
    } else {
        None
    }
}

/// The name of the innermost stage among `p[..=i]`, if there is one.
pub fn enclosing_stage_name(p: &Vec<&Node>, i: usize) -> (r: Option<String>)
    requires
        i < p@.len(),
    ensures
        r matches Some(s) ==> stage_name_at(p@, i as int) == Some(s@),
        r is None ==> stage_name_at(p@, i as int) is None,
{
    let mut k: usize = i;
    loop
        invariant
            0 <= k <= i,
            i < p@.len(),
            nearest_stage(p@, i as int) == nearest_stage(p@, k as int),
        decreases k,
    {
        if p[k].kind == SyntaxKind::Stage {
            return crate::ast::name_of(p[k]);
        }
        if k == 0 {
            assert(nearest_stage(p@, 0) == nearest_stage(p@, -1));
            return None;
        }
        k = k - 1;
    }
}

// ─── tokens and their ancestors ──────────────────────────────────────────────

/// `b` is a child node of `a`.
pub open spec fn is_child(a: Node, b: Node) -> bool {
    exists|k: int| 0 <= k < a.children@.len() && a.children@[k] == Element::Node(b)
}

/// `t` is a child token of `a`.
pub open spec fn has_token(a: Node, t: Token) -> bool {
    exists|k: int| 0 <= k < a.children@.len() && a.children@[k] == Element::Token(t)
}

/// `p` runs from `root` down the tree, each node a child of the one before.
pub open spec fn is_chain(root: Node, p: Seq<&Node>) -> bool {
    &&& p.len() > 0
    &&& *p[0] == root
    &&& forall|i: int| 0 <= i < p.len() - 1 ==> is_child(*p[i], *#[trigger] p[i + 1])
}

/// A token of the tree with the nodes above it, outermost first.
pub struct Located<'a> {
    pub ancestors: Vec<&'a Node>,
    pub token: &'a Token,
}

pub open spec fn located_ok(root: Node, l: Located) -> bool {
    is_chain(root, l.ancestors@) && has_token(*l.ancestors@.last(), *l.token)
}

fn copy_path<'a>(p: &Vec<&'a Node>) -> (r: Vec<&'a Node>)
    ensures
        r@ == p@,
{
    let mut r: Vec<&'a Node> = Vec::new();
    let mut i: usize = 0;
    while i < p.len()
        invariant
            0 <= i <= p@.len(),
            r@ == p@.take(i as int),
        decreases p@.len() - i,
    {
        r.push(p[i]);
        i = i + 1;
        assert(r@ =~= p@.take(i as int));
    }
    assert(p@.take(p@.len() as int) =~= p@);
    r
}

/// The nodes a path of ancestors holds.
pub open spec fn anc_nodes(p: Seq<&Node>) -> Seq<Node> {
    p.map_values(|n: &Node| *n)
}

/// A path of ancestors is determined by the nodes on it, so a contract that
/// names a path by its nodes names exactly one.
pub proof fn lemma_anc_nodes_injective(p: Seq<&Node>, q: Seq<&Node>)
    requires
        anc_nodes(p) == anc_nodes(q),
    ensures
        p == q,
{
    assert(p.len() == anc_nodes(p).len());
    assert forall|i: int| 0 <= i < p.len() implies p[i] == q[i] by {
        assert(anc_nodes(p)[i] == *p[i]);
        assert(anc_nodes(q)[i] == *q[i]);
    }
    assert(p =~= q);
}

/// A located token as plain values: its ancestors and the token.
pub open spec fn loc_views(s: Seq<Located>) -> Seq<(Seq<Node>, Token)> {
    s.map_values(|l: Located| (anc_nodes(l.ancestors@), *l.token))
}

/// The tokens under the element `e`, in order, each with its ancestors
/// outermost first; `anc` are the nodes above `e`.
pub open spec fn elem_tokens(e: Element, anc: Seq<Node>) -> Seq<(Seq<Node>, Token)>
    decreases e, 0nat,
{
    match e {
        Element::Token(t) => seq![(anc, t)],
        Element::Node(n) => elems_tokens(n.children@, n.children@.len() as int, anc.push(n)),
    }
}

/// The tokens under the first `k` of `es`, which all sit below `anc`.
pub open spec fn elems_tokens(es: Seq<Element>, k: int, anc: Seq<Node>) -> Seq<(Seq<Node>, Token)>
    decreases es, k,
{
    if k <= 0 || k > es.len() {
        Seq::empty()
    } else {
        elems_tokens(es, k - 1, anc) + elem_tokens(es[k - 1], anc)
    }
}

/// Every token of the tree `root`, in order, with its ancestors.
pub open spec fn all_tokens(root: Node) -> Seq<(Seq<Node>, Token)> {
    elems_tokens(root.children@, root.children@.len() as int, seq![root])
}

/// Every token under `node`, in order, with its ancestors; `path` leads from
/// the root down to `node`'s parent.
fn collect_tokens<'a>(node: &'a Node, path: &mut Vec<&'a Node>, out: &mut Vec<Located<'a>>, Ghost(root): Ghost<Node>)
    requires
        old(path)@.len() == 0 ==> *node == root,
        old(path)@.len() > 0 ==> is_chain(root, old(path)@) && is_child(*old(path)@.last(), *node),
        forall|i: int| 0 <= i < old(out)@.len() ==> located_ok(root, #[trigger] old(out)@[i]),
    ensures
        final(path)@ == old(path)@,
        forall|i: int| 0 <= i < final(out)@.len() ==> located_ok(root, #[trigger] final(out)@[i]),
        loc_views(final(out)@) == loc_views(old(out)@) + elems_tokens(
            node.children@,
            node.children@.len() as int,
            anc_nodes(old(path)@).push(*node),
        ),
    decreases node,
{
    let ghost p0 = path@;
    let ghost out0 = out@;
    let ghost anc = anc_nodes(p0).push(*node);
    path.push(node);
    assert(anc_nodes(path@) =~= anc);
    proof {
        assert forall|i: int| 0 <= i < path@.len() - 1 implies is_child(*path@[i], *#[trigger] path@[i + 1]) by {
            if i < p0.len() - 1 {
                assert(path@[i] == p0[i] && path@[i + 1] == p0[i + 1]);
            } else {
                assert(path@[i] == p0.last());
            }
        }
    }
    let mut k: usize = 0;
    while k < node.children.len()
        invariant
            0 <= k <= node.children@.len(),
            path@ == p0.push(node),
            anc_nodes(path@) == anc,
            is_chain(root, path@),
            forall|i: int| 0 <= i < out@.len() ==> located_ok(root, #[trigger] out@[i]),
            loc_views(out@) == loc_views(out0) + elems_tokens(node.children@, k as int, anc),
        decreases node.children@.len() - k,
    {
        let ghost o0 = out@;
        match &node.children[k] {
            Element::Token(t) => {
                let ancestors = copy_path(path);
                out.push(Located { ancestors, token: t });
                proof {
                    assert(node.children@[k as int] == Element::Token(*t));
                    assert(has_token(*node, *t));
                    assert forall|i: int| 0 <= i < out@.len() implies located_ok(root, #[trigger] out@[i]) by {
                        if i < o0.len() {
                            assert(out@[i] == o0[i]);
                        }
                    }
                    assert(loc_views(out@) =~= loc_views(o0).push((anc, *t)));
                    assert(elem_tokens(node.children@[k as int], anc) =~= seq![(anc, *t)]);
                }
            },
            Element::Node(c) => {
                proof {
                    assert(node.children@[k as int] == Element::Node(*c));
                    assert(is_child(*node, *c));
                    assert(decreases_to!(*node => node.children));
                }
                collect_tokens(c, path, out, Ghost(root));
            },
        }
        proof {
            assert(elems_tokens(node.children@, k + 1, anc)
                == elems_tokens(node.children@, k as int, anc) + elem_tokens(node.children@[k as int], anc));
        }
        k = k + 1;
    }
    path.pop();
    assert(path@ =~= p0);
}

pub open spec fn tok_end(t: Token) -> int {
    t.start + t.text@.len()
}

/// `t` spans `offset`: it starts at or before it and ends at or after it.
pub open spec fn spans(t: Token, offset: int) -> bool {
    t.start <= offset <= tok_end(t)
}

/// Index of the first of `all[from..]` whose token spans `offset`, or the
/// length of `all` if none does.
pub open spec fn first_spanning(all: Seq<(Seq<Node>, Token)>, offset: int, from: int) -> int
    decreases all.len() - from,
{
    if from < 0 || from >= all.len() {
        all.len() as int
    } else if spans(all[from].1, offset) {
        from
    } else {
        first_spanning(all, offset, from + 1)
    }
}

/// The token at `offset` with its ancestors: the first that spans it, or the
/// next one when the offset is where the first ends and the next starts,
/// unless the next is trivia.
pub open spec fn spec_token_at(root: Node, offset: int) -> Option<(Seq<Node>, Token)> {
    let all = all_tokens(root);
    let i = first_spanning(all, offset, 0);
    if i >= all.len() {
        None
    } else if offset == tok_end(all[i].1) && i + 1 < all.len() && all[i + 1].1.start == offset
        && !all[i + 1].1.kind.spec_is_trivia() {
        Some(all[i + 1])
    } else {
        Some(all[i])
    }
}

/// The token at `offset` of a document's tree, when the tree is a file.
pub open spec fn root_token_at(root: Node, offset: int) -> Option<(Seq<Node>, Token)> {
    if root.kind == SyntaxKind::Root {
        spec_token_at(root, offset)
    } else {
        None
    }
}

/// The token at `offset`, with its ancestors, preferring the one that starts
/// there when the offset is between two tokens, unless that one is trivia.
pub fn token_at<'a>(root: &'a Node, offset: usize) -> (r: Option<Located<'a>>)
    ensures
        r matches Some(l) ==> located_ok(*root, l) && l.token.start <= offset <= tok_end(*l.token),
        match r {
            Some(l) => spec_token_at(*root, offset as int) == Some((anc_nodes(l.ancestors@), *l.token)),
            None => spec_token_at(*root, offset as int) is None,
        },
{
    let mut path: Vec<&'a Node> = Vec::new();
    let mut all: Vec<Located<'a>> = Vec::new();
    collect_tokens(root, &mut path, &mut all, Ghost(*root));
    let ghost views = loc_views(all@);
    proof {
        assert(anc_nodes(Seq::<&Node>::empty()).push(*root) =~= seq![*root]);
        assert(views =~= all_tokens(*root));
    }
    let mut i: usize = 0;
    while i < all.len()
        invariant
            0 <= i <= all@.len(),
            forall|j: int| 0 <= j < all@.len() ==> located_ok(*root, #[trigger] all@[j]),
            views == loc_views(all@),
            views == all_tokens(*root),
            first_spanning(views, offset as int, 0) == first_spanning(views, offset as int, i as int),
        decreases all@.len() - i,
    {
        let t = all[i].token;
        let len = t.text.unicode_len();
        assert(views[i as int] == (anc_nodes(all@[i as int].ancestors@), *t));
        if t.start <= offset && (offset - t.start) <= len {
            if offset - t.start == len && i + 1 < all.len() && all[i + 1].token.start == offset
                && !all[i + 1].token.kind.is_trivia() {
                let next = all[i + 1].token;
                let ghost l1 = all@[i + 1];
                assert(located_ok(*root, l1));
                assert(views[i + 1] == (anc_nodes(l1.ancestors@), *next));
                let ancestors = copy_path(&all[i + 1].ancestors);
                return Some(Located { ancestors, token: next });
            }
            let ghost l0 = all@[i as int];
            assert(located_ok(*root, l0));
            let ancestors = copy_path(&all[i].ancestors);
            return Some(Located { ancestors, token: t });
        }
        i = i + 1;
    }
    None
}


// ─── completion ──────────────────────────────────────────────────────────────

/// What a completion offers.
#[derive(Debug, Clone, Copy, PartialEq, Eq, Structural)]
pub enum CompletionKind {
    Keyword,
    Field,
    Class,
    Function,
}

/// A completion: its label and what it offers.
#[derive(Debug)]
pub struct CompletionItem {
    pub label: String,
    pub kind: CompletionKind,
}

pub open spec fn item_views(v: Seq<CompletionItem>) -> Seq<(Seq<char>, CompletionKind)> {
    v.map_values(|c: CompletionItem| (c.label@, c.kind))
}

pub open spec fn labeled(ls: Seq<Seq<char>>, k: CompletionKind) -> Seq<(Seq<char>, CompletionKind)> {
    ls.map_values(|l: Seq<char>| (l, k))
}

/// The names of the named nodes among `ns`, in order.
pub open spec fn names_of(ns: Seq<Node>) -> Seq<Seq<char>>
    decreases ns.len(),
{
    if ns.len() == 0 {
        Seq::empty()
    } else {
        names_of(ns.drop_last()) + match spec_name(ns.last()) {
            Some(n) => seq![n],
            None => Seq::empty(),
        }
    }
}

/// The templates of a stage body, by name.
pub open spec fn body_templates(b: Node) -> Seq<Seq<char>> {
    names_of(spec_child_nodes(b.children@, SyntaxKind::TemplateDef))
}

/// The templates of the bodies of `stages`, by name.
pub open spec fn stages_templates(stages: Seq<Node>) -> Seq<Seq<char>>
    decreases stages.len(),
{
    if stages.len() == 0 {
        Seq::empty()
    } else {
        stages_templates(stages.drop_last()) + match spec_child_node(stages.last(), SyntaxKind::StageBody) {
            Some(b) => body_templates(b),
            None => Seq::empty(),
        }
    }
}

/// `stage.job` for each of `jobs` in stage `stage`.
pub open spec fn dotted(stage: Seq<char>, jobs: Seq<Seq<char>>) -> Seq<Seq<char>> {
    jobs.map_values(|jn: Seq<char>| stage + seq!['.'] + jn)
}

/// `stage.job` for each named job of each named stage with a body.
pub open spec fn stage_job_labels(stages: Seq<Node>) -> Seq<Seq<char>>
    decreases stages.len(),
{
    if stages.len() == 0 {
        Seq::empty()
    } else {
        stage_job_labels(stages.drop_last()) + match (spec_name(stages.last()), spec_child_node(stages.last(), SyntaxKind::StageBody)) {
            (Some(sn), Some(b)) => dotted(sn, names_of(spec_child_nodes(b.children@, SyntaxKind::Job))),
            _ => Seq::empty(),
        }
    }
}

/// The innermost of `p[..=i]` that is a stage, or `-1`.
pub open spec fn nearest_stage(p: Seq<&Node>, i: int) -> int
    decreases i + 1,
{
    if i < 0 || i >= p.len() {
        -1
    } else if p[i].kind == SyntaxKind::Stage {
        i
    } else {
        nearest_stage(p, i - 1)
    }
}

/// Completions for an `inherit` value: the templates of the enclosing stage,
/// or of every stage outside one.
pub open spec fn inherit_items(root: Node, p: Seq<&Node>, i: int) -> Seq<(Seq<char>, CompletionKind)> {
    let j = nearest_stage(p, i);
    if j >= 0 {
        match spec_child_node(*p[j], SyntaxKind::StageBody) {
            Some(b) => labeled(body_templates(b), CompletionKind::Class),
            None => Seq::empty(),
        }
    } else {
        labeled(stages_templates(crate::ast::spec_root_items(root, SyntaxKind::Stage)), CompletionKind::Class)
    }
}

/// Completions for the value of attribute `key`.
pub open spec fn value_items(key: Option<Seq<char>>, root: Node, p: Seq<&Node>, i: int) -> Seq<(Seq<char>, CompletionKind)> {
    if key == Some("inherit"@) {
        inherit_items(root, p, i)
    } else {
        Seq::empty()
    }
}

/// Completions for the attribute names of an owner.
pub open spec fn attr_names(owner: Option<SyntaxKind>) -> Seq<(Seq<char>, CompletionKind)> {
    if owner == Some(SyntaxKind::Job) {
        labeled(seq!["inherit"@, "dependencies"@, "container"@], CompletionKind::Field)
    } else if owner == Some(SyntaxKind::WorkflowImport) {
        labeled(seq!["location"@, "name"@], CompletionKind::Field)
    } else {
        Seq::empty()
    }
}

pub open spec fn kind_at(p: Seq<&Node>, i: int) -> Option<SyntaxKind> {
    if 0 <= i < p.len() { Some(p[i].kind) } else { None }
}

pub open spec fn key_of(n: Node) -> Option<Seq<char>> {
    match spec_key_token(n) {
        Some(k) => Some(k.text@),
        None => None,
    }
}

/// `a` and `b` are the same token of the text.
pub open spec fn same_token(a: Token, b: Token) -> bool {
    a.kind == b.kind && a.start == b.start && a.text@ == b.text@
}

/// What completes the token `t`, looking out from `p[i]`, the innermost of
/// its ancestors not yet considered.
pub open spec fn spec_completion(root: Node, p: Seq<&Node>, t: Token, i: int) -> Seq<(Seq<char>, CompletionKind)>
    decreases i + 1,
{
    if i < 0 || i >= p.len() {
        Seq::empty()
    } else {
        let n = *p[i];
        if n.kind == SyntaxKind::RefList {
            if kind_at(p, i - 1) == Some(SyntaxKind::AttrValue) && kind_at(p, i - 2) == Some(SyntaxKind::Attr)
                && key_of(*p[i - 2]) == Some("dependencies"@) {
                labeled(stage_job_labels(crate::ast::spec_root_items(root, SyntaxKind::Stage)), CompletionKind::Function)
            } else {
                Seq::empty()
            }
        } else if n.kind == SyntaxKind::AttrValue {
            value_items(if kind_at(p, i - 1) == Some(SyntaxKind::Attr) { key_of(*p[i - 1]) } else { None }, root, p, i)
        } else if n.kind == SyntaxKind::Attr {
            let on_key = match spec_key_token(n) {
                Some(k) => same_token(k, t),
                None => false,
            };
            if on_key || spec_attr_value(n) is None {
                let past_eq = match spec_key_token(n) {
                    Some(k) => tok_end(k) < t.start,
                    None => false,
                };
                if past_eq {
                    value_items(key_of(n), root, p, i)
                } else {
                    attr_names(kind_at(p, i - 2))
                }
            } else {
                value_items(key_of(n), root, p, i)
            }
        } else if n.kind == SyntaxKind::AttrList {
            attr_names(kind_at(p, i - 1))
        } else if n.kind == SyntaxKind::Job || n.kind == SyntaxKind::TemplateDef || n.kind == SyntaxKind::Step
            || n.kind == SyntaxKind::JobBodyInline || n.kind == SyntaxKind::JobBodySteps {
            Seq::empty()
        } else if n.kind == SyntaxKind::StageBody {
            labeled(seq!["job"@, "template"@], CompletionKind::Keyword)
        } else if n.kind == SyntaxKind::WorkflowBody {
            labeled(seq!["use"@, "stage"@, "template"@], CompletionKind::Keyword)
        } else if n.kind == SyntaxKind::Root {
            labeled(seq!["workflow"@], CompletionKind::Keyword)
        } else {
            spec_completion(root, p, t, i - 1)
        }
    }
}

fn push_item(out: &mut Vec<CompletionItem>, label: String, kind: CompletionKind)
    ensures
        item_views(final(out)@) == item_views(old(out)@).push((label@, kind)),
{
    let ghost o = item_views(out@);
    out.push(CompletionItem { label, kind });
    assert(item_views(out@) =~= o.push((label@, kind)));
}

fn items_of(labels: &[&str], kind: CompletionKind) -> (r: Vec<CompletionItem>)
    ensures
        item_views(r@) == labeled(labels@.map_values(|l: &str| l@), kind),
{
    let mut r: Vec<CompletionItem> = Vec::new();
    let mut i: usize = 0;
    while i < labels.len()
        invariant
            0 <= i <= labels@.len(),
            item_views(r@) == labeled(labels@.map_values(|l: &str| l@).take(i as int), kind),
        decreases labels@.len() - i,
    {
        push_item(&mut r, labels[i].to_owned(), kind);
        assert(labeled(labels@.map_values(|l: &str| l@).take(i + 1), kind)
            =~= labeled(labels@.map_values(|l: &str| l@).take(i as int), kind).push((labels@[i as int]@, kind)));
        i = i + 1;
    }
    assert(labels@.map_values(|l: &str| l@).take(labels@.len() as int) =~= labels@.map_values(|l: &str| l@));
    r
}

/// The named nodes among `ns` as completions of one kind.
fn name_items(ns: &Vec<&Node>, kind: CompletionKind, out: &mut Vec<CompletionItem>)
    ensures
        item_views(final(out)@) == item_views(old(out)@) + labeled(names_of(ns@.map_values(|n: &Node| *n)), kind),
{
    let ghost nv = ns@.map_values(|n: &Node| *n);
    let ghost o0 = item_views(out@);
    let mut i: usize = 0;
    while i < ns.len()
        invariant
            0 <= i <= ns@.len(),
            nv == ns@.map_values(|n: &Node| *n),
            item_views(out@) == o0 + labeled(names_of(nv.take(i as int)), kind),
        decreases ns@.len() - i,
    {
        assert(nv.take(i + 1).drop_last() =~= nv.take(i as int));
        assert(nv.take(i + 1).last() == *ns@[i as int]);
        match crate::ast::name_of(ns[i]) {
            Some(n) => {
                push_item(out, n, kind);
                assert(labeled(names_of(nv.take(i + 1)), kind) =~= labeled(names_of(nv.take(i as int)), kind).push((names_of(nv.take(i + 1)).last(), kind)));
            },
            None => {
                assert(names_of(nv.take(i + 1)) =~= names_of(nv.take(i as int)));
            },
        }
        i = i + 1;
    }
    assert(nv.take(nv.len() as int) =~= nv);
}

/// The templates of each stage of the file, by name.
fn all_template_items(root: &Node, out: &mut Vec<CompletionItem>)
    requires
        root.kind == SyntaxKind::Root,
    ensures
        item_views(final(out)@) == item_views(old(out)@) + labeled(stages_templates(crate::ast::spec_root_items(*root, SyntaxKind::Stage)), CompletionKind::Class),
{
    let ghost o0 = item_views(out@);
    let r = match crate::ast::Root::cast(root) {
        Some(r) => r,
        None => {
            assert(false);
            return;
        },
    };
    let stages = r.stages();
    let ghost ss = crate::ast::spec_root_items(*root, SyntaxKind::Stage);
    let mut i: usize = 0;
    while i < stages.len()
        invariant
            0 <= i <= stages@.len(),
            stages@.len() == ss.len(),
            forall|j: int| 0 <= j < stages@.len() ==> #[trigger] stages@[j].node() == ss[j],
            item_views(out@) == o0 + labeled(stages_templates(ss.take(i as int)), CompletionKind::Class),
        decreases stages@.len() - i,
    {
        assert(ss.take(i + 1).drop_last() =~= ss.take(i as int));
        assert(stages@[i as int].node() == ss[i as int]);
        match stages[i].syntax().child_node(SyntaxKind::StageBody) {
            Some(b) => {
                let ts = b.child_nodes(SyntaxKind::TemplateDef);
                name_items(&ts, CompletionKind::Class, out);
                assert(ts@.map_values(|n: &Node| *n) =~= spec_child_nodes(b.children@, SyntaxKind::TemplateDef));
            },
            None => {},
        }
        i = i + 1;
    }
    assert(ss.take(ss.len() as int) =~= ss);
}

fn inherit_completions(root: &Node, p: &Vec<&Node>, i: usize, out: &mut Vec<CompletionItem>)
    requires
        i < p@.len(),
        root.kind == SyntaxKind::Root,
    ensures
        item_views(final(out)@) == item_views(old(out)@) + inherit_items(*root, p@, i as int),
{
    let _n = p.len();
    let mut j: usize = i + 1;
    while j > 0 && p[j - 1].kind != SyntaxKind::Stage
        invariant
            0 <= j <= i + 1,
            i < p@.len(),
            nearest_stage(p@, i as int) == nearest_stage(p@, j - 1),
        decreases j,
    {
        j = j - 1;
    }
    if j > 0 {
        match p[j - 1].child_node(SyntaxKind::StageBody) {
            Some(b) => {
                let ts = b.child_nodes(SyntaxKind::TemplateDef);
                name_items(&ts, CompletionKind::Class, out);
                assert(ts@.map_values(|n: &Node| *n) =~= spec_child_nodes(b.children@, SyntaxKind::TemplateDef));
            },
            None => {
                assert(item_views(out@) + Seq::<(Seq<char>, CompletionKind)>::empty() =~= item_views(out@));
            },
        }
    } else {
        all_template_items(root, out);
    }
}

fn value_completions(key: &Option<String>, root: &Node, p: &Vec<&Node>, i: usize) -> (r: Vec<CompletionItem>)
    requires
        i < p@.len(),
        root.kind == SyntaxKind::Root,
    ensures
        item_views(r@) == value_items(match key { Some(k) => Some(k@), None => None }, *root, p@, i as int),
{
    let mut out: Vec<CompletionItem> = Vec::new();
    assert(item_views(out@) =~= Seq::empty());
    proof {
        reveal_strlit("inherit");
    }
    match key {
        Some(k) => {
            if crate::text::str_eq(k.as_str(), "inherit") {
                inherit_completions(root, p, i, &mut out);
            }
        },
        None => {},
    }
    assert(item_views(out@) =~= value_items(match key { Some(k) => Some(k@), None => None }, *root, p@, i as int));
    out
}

fn dependency_completions(root: &Node) -> (r: Vec<CompletionItem>)
    requires
        root.kind == SyntaxKind::Root,
    ensures
        item_views(r@) == labeled(stage_job_labels(crate::ast::spec_root_items(*root, SyntaxKind::Stage)), CompletionKind::Function),
{
    let mut out: Vec<CompletionItem> = Vec::new();
    let r = match crate::ast::Root::cast(root) {
        Some(r) => r,
        None => return out,
    };
    let stages = r.stages();
    let ghost ss = crate::ast::spec_root_items(*root, SyntaxKind::Stage);
    let mut i: usize = 0;
    while i < stages.len()
        invariant
            0 <= i <= stages@.len(),
            stages@.len() == ss.len(),
            forall|j: int| 0 <= j < stages@.len() ==> #[trigger] stages@[j].node() == ss[j],
            item_views(out@) == labeled(stage_job_labels(ss.take(i as int)), CompletionKind::Function),
        decreases stages@.len() - i,
    {
        assert(ss.take(i + 1).drop_last() =~= ss.take(i as int));
        assert(stages@[i as int].node() == ss[i as int]);
        let sn = crate::ast::name_of(stages[i].syntax());
        let body = stages[i].syntax().child_node(SyntaxKind::StageBody);
        match (sn, body) {
            (Some(sn), Some(b)) => {
                let jobs = b.child_nodes(SyntaxKind::Job);
                let ghost jv = jobs@.map_values(|n: &Node| *n);
                assert(jv =~= spec_child_nodes(b.children@, SyntaxKind::Job));
                let ghost o0 = item_views(out@);
                let mut k: usize = 0;
                while k < jobs.len()
                    invariant
                        0 <= k <= jobs@.len(),
                        jv == jobs@.map_values(|n: &Node| *n),
                        item_views(out@) == o0 + labeled(dotted(sn@, names_of(jv.take(k as int))), CompletionKind::Function),
                    decreases jobs@.len() - k,
                {
                    assert(jv.take(k + 1).drop_last() =~= jv.take(k as int));
                    assert(jv.take(k + 1).last() == *jobs@[k as int]);
                    match crate::ast::name_of(jobs[k]) {
                        Some(jn) => {
                            let mut label = sn.clone();
                            label.append(".");
                            label.append(jn.as_str());
                            proof {
                                reveal_strlit(".");
                            }
                            assert(label@ =~= sn@ + seq!['.'] + jn@);
                            assert(names_of(jv.take(k + 1)) =~= names_of(jv.take(k as int)).push(jn@));
                            assert(dotted(sn@, names_of(jv.take(k + 1))) =~= dotted(sn@, names_of(jv.take(k as int))).push(sn@ + seq!['.'] + jn@));
                            push_item(&mut out, label, CompletionKind::Function);
                            assert(labeled(dotted(sn@, names_of(jv.take(k + 1))), CompletionKind::Function)
                                =~= labeled(dotted(sn@, names_of(jv.take(k as int))), CompletionKind::Function)
                                    .push((sn@ + seq!['.'] + jn@, CompletionKind::Function)));
                        },
                        None => {
                            assert(names_of(jv.take(k + 1)) =~= names_of(jv.take(k as int)));
                        },
                    }
                    k = k + 1;
                }
                assert(jv.take(jv.len() as int) =~= jv);
                assert(labeled(stage_job_labels(ss.take(i + 1)), CompletionKind::Function)
                    =~= o0 + labeled(dotted(sn@, names_of(jv)), CompletionKind::Function));
            },
            _ => {
                assert(labeled(stage_job_labels(ss.take(i + 1)), CompletionKind::Function)
                    =~= labeled(stage_job_labels(ss.take(i as int)), CompletionKind::Function));
            },
        }
        i = i + 1;
    }
    assert(ss.take(ss.len() as int) =~= ss);
    out
}

fn attr_name_completions(owner: Option<SyntaxKind>) -> (r: Vec<CompletionItem>)
    ensures
        item_views(r@) == attr_names(owner),
{
    proof {
        reveal_strlit("inherit");
        reveal_strlit("dependencies");
        reveal_strlit("container");
        reveal_strlit("location");
        reveal_strlit("name");
    }
    match owner {
        Some(SyntaxKind::Job) => {
            let r = items_of(&["inherit", "dependencies", "container"], CompletionKind::Field);
            assert(item_views(r@) =~= attr_names(owner));
            r
        },
        Some(SyntaxKind::WorkflowImport) => {
            let r = items_of(&["location", "name"], CompletionKind::Field);
            assert(item_views(r@) =~= attr_names(owner));
            r
        },
        _ => {
            let r: Vec<CompletionItem> = Vec::new();
            assert(item_views(r@) =~= attr_names(owner));
            r
        },
    }
}

fn key_text_of(n: &Node) -> (r: Option<String>)
    ensures
        (match r { Some(k) => Some(k@), None => None }) == key_of(*n),
{
    match crate::ast::key_token_of(n) {
        Some(t) => Some(t.text.clone()),
        None => None,
    }
}

fn kind_of(p: &Vec<&Node>, i: usize, back: usize) -> (r: Option<SyntaxKind>)
    requires
        i < p@.len(),
    ensures
        r == kind_at(p@, i - back),
{
    if back <= i {
        Some(p[i - back].kind)
    } else {
        None
    }
}

/// The completions for `token`, whose ancestors are `p`, outermost first.
pub fn completion_for(root: &Node, p: &Vec<&Node>, token: &Token) -> (r: Vec<CompletionItem>)
    requires
        root.kind == SyntaxKind::Root,
    ensures
        item_views(r@) == spec_completion(*root, p@, *token, p@.len() - 1),
{
    let mut i: usize = p.len();
    while i > 0
        invariant
            0 <= i <= p@.len(),
            root.kind == SyntaxKind::Root,
            spec_completion(*root, p@, *token, p@.len() - 1) == spec_completion(*root, p@, *token, i - 1),
        decreases i,
    {
        let k = i - 1;
        let n = p[k];
        if n.kind == SyntaxKind::RefList {
            proof {
                reveal_strlit("dependencies");
            }
            if kind_of(p, k, 1) == Some(SyntaxKind::AttrValue) && kind_of(p, k, 2) == Some(SyntaxKind::Attr) {
                let key = key_text_of(p[k - 2]);
                match key {
                    Some(kt) => if crate::text::str_eq(kt.as_str(), "dependencies") {
                        return dependency_completions(root);
                    },
                    None => {},
                }
            }
            let r: Vec<CompletionItem> = Vec::new();
            assert(item_views(r@) =~= Seq::empty());
            return r;
        } else if n.kind == SyntaxKind::AttrValue {
            let key = if kind_of(p, k, 1) == Some(SyntaxKind::Attr) { key_text_of(p[k - 1]) } else { None };
            return value_completions(&key, root, p, k);
        } else if n.kind == SyntaxKind::Attr {
            let kt = crate::ast::key_token_of(n);
            let on_key = match kt {
                Some(t) => t.kind == token.kind && t.start == token.start && crate::text::str_eq(t.text.as_str(), token.text.as_str()),
                None => false,
            };

            if on_key || n.child_node(SyntaxKind::AttrValue).is_none() {
                let past_eq = match kt {
                    Some(t) => {
                        let end = (t.start as u128) + (t.text.unicode_len() as u128);
                        end < (token.start as u128)
                    },
                    None => false,
                };
                if past_eq {
                    let key = key_text_of(n);
                    return value_completions(&key, root, p, k);
                }
                return attr_name_completions(kind_of(p, k, 2));
            }
            let key = key_text_of(n);
            return value_completions(&key, root, p, k);
        } else if n.kind == SyntaxKind::AttrList {
            return attr_name_completions(kind_of(p, k, 1));
        } else if n.kind == SyntaxKind::Job || n.kind == SyntaxKind::TemplateDef || n.kind == SyntaxKind::Step
            || n.kind == SyntaxKind::JobBodyInline || n.kind == SyntaxKind::JobBodySteps {
            let r: Vec<CompletionItem> = Vec::new();
            assert(item_views(r@) =~= Seq::empty());
            return r;
        } else if n.kind == SyntaxKind::StageBody {
            let r = items_of(&["job", "template"], CompletionKind::Keyword);
            proof {
                reveal_strlit("job");
                reveal_strlit("template");
                assert(item_views(r@) =~= labeled(seq!["job"@, "template"@], CompletionKind::Keyword));
            }
            return r;
        } else if n.kind == SyntaxKind::WorkflowBody {
            let r = items_of(&["use", "stage", "template"], CompletionKind::Keyword);
            proof {
                assert(item_views(r@) =~= labeled(seq!["use"@, "stage"@, "template"@], CompletionKind::Keyword));
            }
            return r;
        } else if n.kind == SyntaxKind::Root {
            let r = items_of(&["workflow"], CompletionKind::Keyword);
            proof {
                assert(item_views(r@) =~= labeled(seq!["workflow"@], CompletionKind::Keyword));
            }
            return r;
        }
        i = i - 1;
    }
    let r: Vec<CompletionItem> = Vec::new();
    assert(item_views(r@) =~= Seq::empty());
    r
}

/// The completions for the token at `offset` in the tree `root`: none when
/// there is no token there.
pub fn completion_at(root: &Node, offset: usize) -> (r: Vec<CompletionItem>)
    requires
        root.kind == SyntaxKind::Root,
    ensures
        match spec_token_at(*root, offset as int) {
            None => r@.len() == 0,
            Some(lt) => exists|p: Seq<&Node>| #[trigger] anc_nodes(p) == lt.0
                && item_views(r@) == spec_completion(*root, p, lt.1, p.len() - 1),
        },
{
    match token_at(root, offset) {
        None => Vec::new(),
        Some(l) => {
            let r = completion_for(root, &l.ancestors, l.token);
            assert(anc_nodes(l.ancestors@) == spec_token_at(*root, offset as int).unwrap().0);
            r
        },
    }
}


// ─── hover ───────────────────────────────────────────────────────────────────

/// The documentation of an attribute key.
pub open spec fn attr_key_doc(key: Seq<char>) -> Option<Seq<char>> {
    if key == "inherit"@ {
        Some("**inherit** — template whose steps this job inherits"@)
    } else if key == "dependencies"@ {
        Some("**dependencies** — jobs that must complete before this one"@)
    } else if key == "image"@ {
        Some("**image** — Docker image to run the job in"@)
    } else if key == "path"@ {
        Some("**path** — path to the imported workflow file"@)
    } else if key == "strategy"@ {
        Some("**strategy** — when this workflow runs"@)
    } else {
        None
    }
}

/// `kind `name``, the description of a named item.
pub open spec fn named(kind: Seq<char>, name: Seq<char>) -> Seq<char> {
    kind + " `"@ + name + "`"@
}

/// What hovering over an identifier shows: what it names, or the
/// documentation of the attribute key it is.
pub open spec fn ident_hover(p: Seq<&Node>, t: Token) -> Option<Seq<char>> {
    let parent = *p.last();
    if parent.kind == SyntaxKind::Name {
        let owner = kind_at(p, p.len() - 2);
        if owner == Some(SyntaxKind::WorkflowDef) {
            Some(named("workflow"@, t.text@))
        } else if owner == Some(SyntaxKind::Stage) {
            Some(named("stage"@, t.text@))
        } else if owner == Some(SyntaxKind::Job) {
            Some(named("job"@, t.text@))
        } else if owner == Some(SyntaxKind::TemplateDef) {
            Some(named("template"@, t.text@))
        } else if owner == Some(SyntaxKind::Step) {
            Some(named("step"@, t.text@))
        } else if owner == Some(SyntaxKind::UseDecl) {
            Some(named("import alias"@, t.text@))
        } else {
            None
        }
    } else if parent.kind == SyntaxKind::Attr {
        attr_key_doc(t.text@)
    } else {
        None
    }
}

/// What hovering over an attribute value shows, by the attribute's key.
pub open spec fn value_hover(p: Seq<&Node>, t: Token) -> Option<Seq<char>> {
    if p.last().kind == SyntaxKind::AttrValue && kind_at(p, p.len() - 2) == Some(SyntaxKind::Attr) {
        match key_of(*p[p.len() - 2]) {
            Some(key) => if key == "inherit"@ {
                Some("inherits steps from template `"@ + t.text@ + "`"@)
            } else if key == "image"@ {
                Some("runs in container image `"@ + t.text@ + "`"@)
            } else if key == "path"@ {
                Some("imports workflow from `"@ + t.text@ + "`"@)
            } else if key == "strategy"@ {
                Some("workflow strategy: `"@ + t.text@ + "`"@)
            } else {
                None
            },
            None => None,
        }
    } else {
        None
    }
}

/// What hovering over token `t`, under the nodes `p`, shows.
pub open spec fn spec_hover(p: Seq<&Node>, t: Token) -> Option<Seq<char>> {
    if t.kind == SyntaxKind::KwStage {
        Some("**stage** — groups jobs and templates"@)
    } else if t.kind == SyntaxKind::KwJob {
        Some("**job** — a CI job that runs shell commands or steps"@)
    } else if t.kind == SyntaxKind::KwStep {
        Some("**step** — a named shell command within a job"@)
    } else if t.kind == SyntaxKind::KwSteps {
        Some("**steps** — inherit all steps from the parent template"@)
    } else if t.kind == SyntaxKind::KwTemplate {
        Some("**template** — a reusable sequence of steps"@)
    } else if t.kind == SyntaxKind::KwUse {
        Some("**use** — imports external workflows"@)
    } else if t.kind == SyntaxKind::KwWorkflow {
        Some("**workflow** — declares a CI workflow"@)
    } else if t.kind == SyntaxKind::Ident {
        ident_hover(p, t)
    } else if t.kind == SyntaxKind::BareValue {
        value_hover(p, t)
    } else {
        None
    }
}

fn named_text(kind: &str, name: &str) -> (r: String)
    ensures
        r@ == named(kind@, name@),
{
    let mut r = kind.to_owned();
    r.append(" `");
    r.append(name);
    r.append("`");
    proof {
        reveal_strlit(" `");
        reveal_strlit("`");
    }
    r
}

fn wrap(prefix: &str, value: &str) -> (r: String)
    ensures
        r@ == prefix@ + value@ + "`"@,
{
    let mut r = prefix.to_owned();
    r.append(value);
    r.append("`");
    r
}

fn key_doc(key: &str) -> (r: Option<String>)
    ensures
        match r {
            Some(x) => attr_key_doc(key@) == Some(x@),
            None => attr_key_doc(key@) is None,
        },
{
    if crate::text::str_eq(key, "inherit") {
        Some("**inherit** — template whose steps this job inherits".to_owned())
    } else if crate::text::str_eq(key, "dependencies") {
        Some("**dependencies** — jobs that must complete before this one".to_owned())
    } else if crate::text::str_eq(key, "image") {
        Some("**image** — Docker image to run the job in".to_owned())
    } else if crate::text::str_eq(key, "path") {
        Some("**path** — path to the imported workflow file".to_owned())
    } else if crate::text::str_eq(key, "strategy") {
        Some("**strategy** — when this workflow runs".to_owned())
    } else {
        None
    }
}

/// What hovering over `token`, whose ancestors are `p`, shows.
pub fn hover_for(p: &Vec<&Node>, token: &Token) -> (r: Option<String>)
    requires
        p@.len() > 0,
    ensures
        match r {
            Some(x) => spec_hover(p@, *token) == Some(x@),
            None => spec_hover(p@, *token) is None,
        },
{
    let text = token.text.as_str();
    let n = p.len();
    match token.kind {
        SyntaxKind::KwStage => Some("**stage** — groups jobs and templates".to_owned()),
        SyntaxKind::KwJob => Some("**job** — a CI job that runs shell commands or steps".to_owned()),
        SyntaxKind::KwStep => Some("**step** — a named shell command within a job".to_owned()),
        SyntaxKind::KwSteps => Some("**steps** — inherit all steps from the parent template".to_owned()),
        SyntaxKind::KwTemplate => Some("**template** — a reusable sequence of steps".to_owned()),
        SyntaxKind::KwUse => Some("**use** — imports external workflows".to_owned()),
        SyntaxKind::KwWorkflow => Some("**workflow** — declares a CI workflow".to_owned()),
        SyntaxKind::Ident => {
            let parent = p[n - 1];
            if parent.kind == SyntaxKind::Name {
                if n < 2 {
                    return None;
                }
                let owner = p[n - 2].kind;
                match owner {
                    SyntaxKind::WorkflowDef => Some(named_text("workflow", text)),
                    SyntaxKind::Stage => Some(named_text("stage", text)),
                    SyntaxKind::Job => Some(named_text("job", text)),
                    SyntaxKind::TemplateDef => Some(named_text("template", text)),
                    SyntaxKind::Step => Some(named_text("step", text)),
                    SyntaxKind::UseDecl => Some(named_text("import alias", text)),
                    _ => None,
                }
            } else if parent.kind == SyntaxKind::Attr {
                key_doc(text)
            } else {
                None
            }
        },
        SyntaxKind::BareValue => {
            if n < 2 || p[n - 1].kind != SyntaxKind::AttrValue || p[n - 2].kind != SyntaxKind::Attr {
                return None;
            }
            let key = match key_text_of(p[n - 2]) {
                Some(k) => k,
                None => return None,
            };
            proof {
                reveal_strlit("inherit");
                reveal_strlit("image");
                reveal_strlit("path");
                reveal_strlit("strategy");
            }
            if crate::text::str_eq(key.as_str(), "inherit") {
                Some(wrap("inherits steps from template `", text))
            } else if crate::text::str_eq(key.as_str(), "image") {
                Some(wrap("runs in container image `", text))
            } else if crate::text::str_eq(key.as_str(), "path") {
                Some(wrap("imports workflow from `", text))
            } else if crate::text::str_eq(key.as_str(), "strategy") {
                Some(wrap("workflow strategy: `", text))
            } else {
                None
            }
        },
        _ => None,
    }
}

/// What a hover shows, and the characters `start..end` it is about.
#[derive(Debug)]
pub struct HoverInfo {
    pub content: String,
    pub start: usize,
    pub end: usize,
}

/// What hovering at `offset` over the tree `root` shows, if anything: the
/// hover text of the token there, over the token's range.
pub fn hover_at(root: &Node, offset: usize) -> (r: Option<HoverInfo>)
    ensures
        match spec_token_at(*root, offset as int) {
            None => r is None,
            Some(lt) => exists|p: Seq<&Node>| #[trigger] anc_nodes(p) == lt.0 && match spec_hover(p, lt.1) {
                None => r is None,
                Some(c) => if tok_end(lt.1) <= usize::MAX {
                    r matches Some(h) && h.content@ == c && h.start == lt.1.start && h.end == tok_end(lt.1)
                } else {
                    r is None
                },
            },
        },
{
    let l = match token_at(root, offset) {
        Some(l) => l,
        None => return None,
    };
    assert(located_ok(*root, l));
    assert(anc_nodes(l.ancestors@) == spec_token_at(*root, offset as int).unwrap().0);
    let content = match hover_for(&l.ancestors, l.token) {
        Some(c) => c,
        None => return None,
    };
    let start = l.token.start;
    let len = l.token.text.unicode_len();
    if start > usize::MAX - len {
        return None;
    }
    Some(HoverInfo { content, start, end: start + len })
}

} // verus!

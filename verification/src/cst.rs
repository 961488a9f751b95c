use vstd::prelude::*;

use crate::syntax::SyntaxKind;

verus! {

/// A leaf of the concrete syntax tree: a token with its text and the offset
/// (in characters) at which it starts in the source.
pub struct Token {
    pub kind: SyntaxKind,
    pub text: String,
    pub start: usize,
}

/// A child of a node: another node or a token.
pub enum Element {
    Node(Node),
    Token(Token),
}

/// An inner node of the concrete syntax tree, covering the characters
/// `start..end` of the source.
pub struct Node {
    pub kind: SyntaxKind,
    pub start: usize,
    pub end: usize,
    pub children: Vec<Element>,
}

// ─── text of a tree ──────────────────────────────────────────────────────────

/// The source text an element covers: its tokens' texts in order.
pub open spec fn elem_text(e: Element) -> Seq<char>
    decreases e, 0nat,
{
    match e {
        Element::Token(t) => t.text@,
        Element::Node(n) => elems_text(n.children@, n.children@.len() as int),
    }
}

/// The text of the first `k` elements of `es`.
pub open spec fn elems_text(es: Seq<Element>, k: int) -> Seq<char>
    decreases es, k,
{
    if k <= 0 || k > es.len() {
        Seq::empty()
    } else {
        elems_text(es, k - 1) + elem_text(es[k - 1])
    }
}

/// The text of a whole node.
pub open spec fn node_text(n: Node) -> Seq<char> {
    elems_text(n.children@, n.children@.len() as int)
}

pub proof fn lemma_elems_text_push(es: Seq<Element>, e: Element)
    ensures
        elems_text(es.push(e), es.len() + 1int) == elems_text(es, es.len() as int) + elem_text(e),
{
    let es2 = es.push(e);
    assert(es2[es.len() as int] == e);
    lemma_elems_text_prefix(es, es2, es.len() as int);
}

/// The text of a prefix only depends on the elements in it.
pub proof fn lemma_elems_text_prefix(es: Seq<Element>, es2: Seq<Element>, k: int)
    requires
        0 <= k <= es.len(),
        k <= es2.len(),
        forall|i: int| 0 <= i < k ==> es[i] == es2[i],
    ensures
        elems_text(es, k) == elems_text(es2, k),
    decreases k,
{
    if k > 0 {
        lemma_elems_text_prefix(es, es2, k - 1);
    }
}

// ─── shape of a tree ─────────────────────────────────────────────────────────

/// One step of writing a tree out in document order: a node opens (its kind
/// and start), a token (its kind, start and text), or a node closes (its end).
pub enum TreeEvent {
    Open(SyntaxKind, int),
    Leaf(SyntaxKind, int, Seq<char>),
    Close(int),
}

/// An element written out as events. Two trees with the same events have
/// the same shape, kinds, offsets and texts.
pub open spec fn elem_events(e: Element) -> Seq<TreeEvent>
    decreases e, 0nat,
{
    match e {
        Element::Token(t) => seq![TreeEvent::Leaf(t.kind, t.start as int, t.text@)],
        Element::Node(n) => seq![TreeEvent::Open(n.kind, n.start as int)] + elems_events(
            n.children@,
            n.children@.len() as int,
        ) + seq![TreeEvent::Close(n.end as int)],
    }
}

/// The events of the first `k` elements of `es`.
pub open spec fn elems_events(es: Seq<Element>, k: int) -> Seq<TreeEvent>
    decreases es, k,
{
    if k <= 0 || k > es.len() {
        Seq::empty()
    } else {
        elems_events(es, k - 1) + elem_events(es[k - 1])
    }
}

/// A whole node written out as events.
pub open spec fn tree_events(n: Node) -> Seq<TreeEvent> {
    elem_events(Element::Node(n))
}

pub proof fn lemma_elems_events_push(es: Seq<Element>, e: Element)
    ensures
        elems_events(es.push(e), es.len() + 1int) == elems_events(es, es.len() as int) + elem_events(e),
{
    let es2 = es.push(e);
    assert(es2[es.len() as int] == e);
    lemma_elems_events_prefix(es, es2, es.len() as int);
}

pub proof fn lemma_elems_events_prefix(es: Seq<Element>, es2: Seq<Element>, k: int)
    requires
        0 <= k <= es.len(),
        k <= es2.len(),
        forall|i: int| 0 <= i < k ==> es[i] == es2[i],
    ensures
        elems_events(es, k) == elems_events(es2, k),
    decreases k,
{
    if k > 0 {
        lemma_elems_events_prefix(es, es2, k - 1);
    }
}

// ─── queries ─────────────────────────────────────────────────────────────────

pub open spec fn is_node_of(e: Element, k: SyntaxKind) -> bool {
    match e {
        Element::Node(n) => n.kind == k,
        Element::Token(_) => false,
    }
}

pub open spec fn is_token_of(e: Element, k: SyntaxKind) -> bool {
    match e {
        Element::Token(t) => t.kind == k,
        Element::Node(_) => false,
    }
}

/// The kind of an element.
pub open spec fn elem_kind(e: Element) -> SyntaxKind {
    match e {
        Element::Node(n) => n.kind,
        Element::Token(t) => t.kind,
    }
}

/// Index of the first child of `n` at or after `from` that is a node of kind `k`,
/// or the number of children if there is none.
pub open spec fn first_node_at(es: Seq<Element>, from: int, k: SyntaxKind) -> int
    decreases es.len() - from,
{
    if from < 0 || from >= es.len() {
        es.len() as int
    } else if is_node_of(es[from], k) {
        from
    } else {
        first_node_at(es, from + 1, k)
    }
}

/// Index of the first child token of kind `k` at or after `from`, or the number
/// of children if there is none.
pub open spec fn first_token_at(es: Seq<Element>, from: int, k: SyntaxKind) -> int
    decreases es.len() - from,
{
    if from < 0 || from >= es.len() {
        es.len() as int
    } else if is_token_of(es[from], k) {
        from
    } else {
        first_token_at(es, from + 1, k)
    }
}

pub proof fn lemma_first_node_at(es: Seq<Element>, from: int, k: SyntaxKind)
    requires
        0 <= from <= es.len(),
    ensures
        from <= first_node_at(es, from, k) <= es.len(),
        first_node_at(es, from, k) < es.len() ==> is_node_of(es[first_node_at(es, from, k)], k),
        forall|i: int| from <= i < first_node_at(es, from, k) ==> !is_node_of(#[trigger] es[i], k),
    decreases es.len() - from,
{
    if from < es.len() && !is_node_of(es[from], k) {
        lemma_first_node_at(es, from + 1, k);
    }
}

pub proof fn lemma_first_token_at(es: Seq<Element>, from: int, k: SyntaxKind)
    requires
        0 <= from <= es.len(),
    ensures
        from <= first_token_at(es, from, k) <= es.len(),
        first_token_at(es, from, k) < es.len() ==> is_token_of(es[first_token_at(es, from, k)], k),
        forall|i: int| from <= i < first_token_at(es, from, k) ==> !is_token_of(#[trigger] es[i], k),
    decreases es.len() - from,
{
    if from < es.len() && !is_token_of(es[from], k) {
        lemma_first_token_at(es, from + 1, k);
    }
}

/// The first child node of kind `k`, if any.
pub open spec fn spec_child_node(n: Node, k: SyntaxKind) -> Option<Node> {
    let i = first_node_at(n.children@, 0, k);
    if i < n.children@.len() {
        match n.children@[i] {
            Element::Node(c) => Some(c),
            Element::Token(_) => None,
        }
    } else {
        None
    }
}

/// The first child token of kind `k`, if any.
pub open spec fn spec_child_token(n: Node, k: SyntaxKind) -> Option<Token> {
    let i = first_token_at(n.children@, 0, k);
    if i < n.children@.len() {
        match n.children@[i] {
            Element::Token(t) => Some(t),
            Element::Node(_) => None,
        }
    } else {
        None
    }
}

/// All child nodes of kind `k`, in order.
pub open spec fn spec_child_nodes(es: Seq<Element>, k: SyntaxKind) -> Seq<Node>
    decreases es.len(),
{
    if es.len() == 0 {
        Seq::empty()
    } else {
        let rest = spec_child_nodes(es.drop_last(), k);
        match es.last() {
            Element::Node(c) => if c.kind == k {
                rest.push(c)
            } else {
                rest
            },
            Element::Token(_) => rest,
        }
    }
}

/// Every child node of kind `k` is of kind `k`.
pub proof fn lemma_child_nodes_kind(es: Seq<Element>, k: SyntaxKind, i: int)
    requires
        0 <= i < spec_child_nodes(es, k).len(),
    ensures
        spec_child_nodes(es, k)[i].kind == k,
    decreases es.len(),
{
    let rest = spec_child_nodes(es.drop_last(), k);
    if i < rest.len() {
        lemma_child_nodes_kind(es.drop_last(), k, i);
    }
}

impl Node {
    /// The first child node of kind `k`, if any.
    pub fn child_node(&self, k: SyntaxKind) -> (r: Option<&Node>)
        ensures
            r matches Some(c) ==> spec_child_node(*self, k) == Some(*c),
            r is None ==> spec_child_node(*self, k) is None,
    {
        let mut i: usize = 0;
        proof {
            lemma_first_node_at(self.children@, 0, k);
        }
        while i < self.children.len()
            invariant
                0 <= i <= self.children@.len(),
                first_node_at(self.children@, 0, k) == first_node_at(self.children@, i as int, k),
            decreases self.children@.len() - i,
        {
            match &self.children[i] {
                Element::Node(c) => {
                    if c.kind == k {
                        return Some(c);
                    }
                },
                Element::Token(_) => {},
            }
            i = i + 1;
        }
        None
    }

    /// The first child token of kind `k`, if any.
    pub fn child_token(&self, k: SyntaxKind) -> (r: Option<&Token>)
        ensures
            r matches Some(t) ==> spec_child_token(*self, k) == Some(*t),
            r is None ==> spec_child_token(*self, k) is None,
    {
        let mut i: usize = 0;
        while i < self.children.len()
            invariant
                0 <= i <= self.children@.len(),
                first_token_at(self.children@, 0, k) == first_token_at(self.children@, i as int, k),
            decreases self.children@.len() - i,
        {
            match &self.children[i] {
                Element::Token(t) => {
                    if t.kind == k {
                        return Some(t);
                    }
                },
                Element::Node(_) => {},
            }
            i = i + 1;
        }
        None
    }

    /// All child nodes of kind `k`, in order.
    pub fn child_nodes(&self, k: SyntaxKind) -> (r: Vec<&Node>)
        ensures
            r@.len() == spec_child_nodes(self.children@, k).len(),
            forall|i: int| 0 <= i < r@.len() ==> *r@[i] == spec_child_nodes(self.children@, k)[i],
    {
        let mut r: Vec<&Node> = Vec::new();
        let mut i: usize = 0;
        while i < self.children.len()
            invariant
                0 <= i <= self.children@.len(),
                r@.len() == spec_child_nodes(self.children@.take(i as int), k).len(),
                forall|j: int| 0 <= j < r@.len() ==> *r@[j] == spec_child_nodes(self.children@.take(i as int), k)[j],
            decreases self.children@.len() - i,
        {
            let ghost before = self.children@.take(i as int);
            assert(self.children@.take(i + 1).drop_last() =~= before);
            match &self.children[i] {
                Element::Node(c) => {
                    if c.kind == k {
                        r.push(c);
                    }
                },
                Element::Token(_) => {},
            }
            i = i + 1;
        }
        assert(self.children@.take(self.children@.len() as int) =~= self.children@);
        r
    }
}

} // verus!

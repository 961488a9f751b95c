use vstd::prelude::*;

use crate::cst::{Element, Node, Token, spec_child_node, spec_child_nodes, spec_child_token};
use crate::parser::spec_is_keyword;
use crate::syntax::SyntaxKind;
use crate::text::{concat, string_from_chars};

verus! {

// ─── spec helpers ────────────────────────────────────────────────────────────

/// Index of the first token child of `es` at or after `from` (of any kind).
pub open spec fn first_any_token(es: Seq<Element>, from: int) -> int
    decreases es.len() - from,
{
    if from < 0 || from >= es.len() {
        es.len() as int
    } else if es[from] is Token {
        from
    } else {
        first_any_token(es, from + 1)
    }
}

/// The first token child of a node, of any kind.
pub open spec fn spec_first_token(n: Node) -> Option<Token> {
    let i = first_any_token(n.children@, 0);
    if i < n.children@.len() {
        match n.children@[i] {
            Element::Token(t) => Some(t),
            Element::Node(_) => None,
        }
    } else {
        None
    }
}

/// The name of a named item: the first token of its `Name` child.
pub open spec fn spec_name_token(n: Node) -> Option<Token> {
    match spec_child_node(n, SyntaxKind::Name) {
        Some(name) => spec_first_token(name),
        None => None,
    }
}

pub open spec fn spec_name(n: Node) -> Option<Seq<char>> {
    match spec_name_token(n) {
        Some(t) => Some(t.text@),
        None => None,
    }
}

/// The `AttrList` child of a node.
pub open spec fn spec_attr_list(n: Node) -> Option<Node> {
    spec_child_node(n, SyntaxKind::AttrList)
}

/// Index of the first `Ident` or keyword token child at or after `from`.
pub open spec fn first_key_token(es: Seq<Element>, from: int) -> int
    decreases es.len() - from,
{
    if from < 0 || from >= es.len() {
        es.len() as int
    } else if es[from] matches Element::Token(t) && (t.kind == SyntaxKind::Ident || spec_is_keyword(t.kind)) {
        from
    } else {
        first_key_token(es, from + 1)
    }
}

/// The key token of an attribute: its first `Ident` or keyword token.
pub open spec fn spec_key_token(attr: Node) -> Option<Token> {
    let i = first_key_token(attr.children@, 0);
    if i < attr.children@.len() {
        match attr.children@[i] {
            Element::Token(t) => Some(t),
            Element::Node(_) => None,
        }
    } else {
        None
    }
}

pub open spec fn spec_key_text(attr: Node) -> Option<Seq<char>> {
    match spec_key_token(attr) {
        Some(t) => Some(t.text@),
        None => None,
    }
}

/// The `AttrValue` child of an attribute.
pub open spec fn spec_attr_value(attr: Node) -> Option<Node> {
    spec_child_node(attr, SyntaxKind::AttrValue)
}

/// The text of the `BareValue` token of an attribute value.
pub open spec fn spec_bare_text(value: Node) -> Option<Seq<char>> {
    match spec_child_token(value, SyntaxKind::BareValue) {
        Some(t) => Some(t.text@),
        None => None,
    }
}

/// The scalar value of an attribute, if it has one.
pub open spec fn spec_value_text(attr: Node) -> Option<Seq<char>> {
    match spec_attr_value(attr) {
        Some(v) => spec_bare_text(v),
        None => None,
    }
}

/// The non-trivia tokens among `es[0..k]`, concatenated.
pub open spec fn solid_text(es: Seq<Element>, k: int) -> Seq<char>
    decreases k,
{
    if k <= 0 || k > es.len() {
        Seq::empty()
    } else {
        solid_text(es, k - 1) + match es[k - 1] {
            Element::Token(t) => if t.kind.spec_is_trivia() {
                Seq::empty()
            } else {
                t.text@
            },
            Element::Node(_) => Seq::empty(),
        }
    }
}

/// The text of a reference node, without the trivia around or inside it.
pub open spec fn spec_ref_text(r: Node) -> Seq<char> {
    solid_text(r.children@, r.children@.len() as int)
}

/// The non-trivia child tokens of `es[0..k]`.
pub open spec fn solid_tokens(es: Seq<Element>, k: int) -> Seq<Token>
    decreases k,
{
    if k <= 0 || k > es.len() {
        Seq::empty()
    } else {
        let rest = solid_tokens(es, k - 1);
        match es[k - 1] {
            Element::Token(t) => if t.kind.spec_is_trivia() {
                rest
            } else {
                rest.push(t)
            },
            Element::Node(_) => rest,
        }
    }
}

/// `stage.job`: a reference made of exactly an identifier, a dot and an identifier.
pub open spec fn spec_stage_job(r: Node) -> Option<(Seq<char>, Seq<char>)> {
    let ts = solid_tokens(r.children@, r.children@.len() as int);
    if ts.len() == 3 && ts[0].kind == SyntaxKind::Ident && ts[1].kind == SyntaxKind::Dot
        && ts[2].kind == SyntaxKind::Ident {
        Some((ts[0].text@, ts[2].text@))
    } else {
        None
    }
}

// ─── exec helpers ────────────────────────────────────────────────────────────

/// The first token child of a node, of any kind.
pub fn first_token(n: &Node) -> (r: Option<&Token>)
    ensures
        r matches Some(t) ==> spec_first_token(*n) == Some(*t),
        r is None ==> spec_first_token(*n) is None,
{
    let mut i: usize = 0;
    while i < n.children.len()
        invariant
            0 <= i <= n.children@.len(),
            first_any_token(n.children@, 0) == first_any_token(n.children@, i as int),
        decreases n.children@.len() - i,
    {
        match &n.children[i] {
            Element::Token(t) => {
                return Some(t);
            },
            Element::Node(_) => {},
        }
        i = i + 1;
    }
    None
}

/// The identifier token that names `n`, if present.
pub fn name_token(n: &Node) -> (r: Option<&Token>)
    ensures
        r matches Some(t) ==> spec_name_token(*n) == Some(*t),
        r is None ==> spec_name_token(*n) is None,
{
    match n.child_node(SyntaxKind::Name) {
        Some(name) => first_token(name),
        None => None,
    }
}

/// The name of `n` as a string, if present.
pub fn name_of(n: &Node) -> (r: Option<String>)
    ensures
        r matches Some(s) ==> spec_name(*n) == Some(s@),
        r is None ==> spec_name(*n) is None,
{
    match name_token(n) {
        Some(t) => Some(t.text.clone()),
        None => None,
    }
}

/// The `AttrList` child of `n`, if present.
pub fn attr_list_of(n: &Node) -> (r: Option<AttrList<'_>>)
    ensures
        r matches Some(a) ==> spec_attr_list(*n) == Some(a.node()),
        r is None ==> spec_attr_list(*n) is None,
{
    match n.child_node(SyntaxKind::AttrList) {
        Some(c) => Some(AttrList { node: c }),
        None => None,
    }
}

// ─── typed nodes ─────────────────────────────────────────────────────────────

/// Declares the accessor common to every typed node: the node it wraps.
pub trait AstNode<'a>: Sized {
    spec fn node(&self) -> Node;

    /// The underlying syntax node.
    fn syntax(&self) -> (r: &'a Node)
        ensures
            *r == self.node(),
    ;
}

/// A typed node that may carry an attribute list.
pub trait HasAttrList<'a>: AstNode<'a> {
    /// The `AttrList` child node, if present.
    fn attr_list(&self) -> (r: Option<AttrList<'a>>)
        ensures
            r matches Some(a) ==> spec_attr_list(self.node()) == Some(a.node()),
            r is None ==> spec_attr_list(self.node()) is None,
    ;
}

/// A typed node that has a name.
pub trait HasName<'a>: AstNode<'a> {
    /// The identifier token naming this item, if present.
    fn name_token(&self) -> (r: Option<&'a Token>)
        ensures
            r matches Some(t) ==> spec_name_token(self.node()) == Some(*t),
            r is None ==> spec_name_token(self.node()) is None,
    ;

    /// The name, if present.
    fn name(&self) -> (r: Option<String>)
        ensures
            r matches Some(s) ==> spec_name(self.node()) == Some(s@),
            r is None ==> spec_name(self.node()) is None,
    ;
}

pub struct Root<'a> {
    node: &'a Node,
}

pub struct WorkflowDef<'a> {
    node: &'a Node,
}

pub struct WorkflowBody<'a> {
    node: &'a Node,
}

pub struct UseDecl<'a> {
    node: &'a Node,
}

pub struct AttrList<'a> {
    node: &'a Node,
}

pub struct Attr<'a> {
    node: &'a Node,
}

pub struct AttrValue<'a> {
    node: &'a Node,
}

pub struct RefList<'a> {
    node: &'a Node,
}

pub struct Ref<'a> {
    node: &'a Node,
}

pub struct Stage<'a> {
    node: &'a Node,
}

pub struct StageBody<'a> {
    node: &'a Node,
}

pub struct Job<'a> {
    node: &'a Node,
}

pub struct TemplateDef<'a> {
    node: &'a Node,
}

pub struct JobBodyInline<'a> {
    node: &'a Node,
}

pub struct JobBodySteps<'a> {
    node: &'a Node,
}

pub struct Step<'a> {
    node: &'a Node,
}

/// `-> [ ... ]` after the body of a job or a template.
pub struct ReturnAnnotation<'a> {
    node: &'a Node,
}

/// The `[ ... ]` list of a return annotation.
pub struct PathList<'a> {
    node: &'a Node,
}

/// One item of a path list: a file path or glob, or `$NAME` for an
/// environment variable.
pub struct PathItem<'a> {
    node: &'a Node,
}

pub struct StepsKeyword<'a> {
    node: &'a Node,
}

impl<'a> AstNode<'a> for Root<'a> {
    closed spec fn node(&self) -> Node {
        *self.node
    }

    fn syntax(&self) -> (r: &'a Node) {
        self.node
    }
}

impl<'a> Root<'a> {
    /// Cast a raw node into this typed node, if it is of the right kind.
    pub fn cast(node: &'a Node) -> (r: Option<Root<'a>>)
        ensures
            r is Some <==> node.kind == SyntaxKind::Root,
            r matches Some(x) ==> x.node() == *node,
    {
        if node.kind == SyntaxKind::Root {
            Some(Root { node })
        } else {
            None
        }
    }
}

impl<'a> AstNode<'a> for WorkflowDef<'a> {
    closed spec fn node(&self) -> Node {
        *self.node
    }

    fn syntax(&self) -> (r: &'a Node) {
        self.node
    }
}

impl<'a> WorkflowDef<'a> {
    /// Cast a raw node into this typed node, if it is of the right kind.
    pub fn cast(node: &'a Node) -> (r: Option<WorkflowDef<'a>>)
        ensures
            r is Some <==> node.kind == SyntaxKind::WorkflowDef,
            r matches Some(x) ==> x.node() == *node,
    {
        if node.kind == SyntaxKind::WorkflowDef {
            Some(WorkflowDef { node })
        } else {
            None
        }
    }
}

impl<'a> AstNode<'a> for WorkflowBody<'a> {
    closed spec fn node(&self) -> Node {
        *self.node
    }

    fn syntax(&self) -> (r: &'a Node) {
        self.node
    }
}

impl<'a> WorkflowBody<'a> {
    /// Cast a raw node into this typed node, if it is of the right kind.
    pub fn cast(node: &'a Node) -> (r: Option<WorkflowBody<'a>>)
        ensures
            r is Some <==> node.kind == SyntaxKind::WorkflowBody,
            r matches Some(x) ==> x.node() == *node,
    {
        if node.kind == SyntaxKind::WorkflowBody {
            Some(WorkflowBody { node })
        } else {
            None
        }
    }
}

impl<'a> AstNode<'a> for UseDecl<'a> {
    closed spec fn node(&self) -> Node {
        *self.node
    }

    fn syntax(&self) -> (r: &'a Node) {
        self.node
    }
}

impl<'a> UseDecl<'a> {
    /// Cast a raw node into this typed node, if it is of the right kind.
    pub fn cast(node: &'a Node) -> (r: Option<UseDecl<'a>>)
        ensures
            r is Some <==> node.kind == SyntaxKind::UseDecl,
            r matches Some(x) ==> x.node() == *node,
    {
        if node.kind == SyntaxKind::UseDecl {
            Some(UseDecl { node })
        } else {
            None
        }
    }
}

impl<'a> AstNode<'a> for AttrList<'a> {
    closed spec fn node(&self) -> Node {
        *self.node
    }

    fn syntax(&self) -> (r: &'a Node) {
        self.node
    }
}

impl<'a> AttrList<'a> {
    /// Cast a raw node into this typed node, if it is of the right kind.
    pub fn cast(node: &'a Node) -> (r: Option<AttrList<'a>>)
        ensures
            r is Some <==> node.kind == SyntaxKind::AttrList,
            r matches Some(x) ==> x.node() == *node,
    {
        if node.kind == SyntaxKind::AttrList {
            Some(AttrList { node })
        } else {
            None
        }
    }
}

impl<'a> AstNode<'a> for Attr<'a> {
    closed spec fn node(&self) -> Node {
        *self.node
    }

    fn syntax(&self) -> (r: &'a Node) {
        self.node
    }
}

impl<'a> Attr<'a> {
    /// Cast a raw node into this typed node, if it is of the right kind.
    pub fn cast(node: &'a Node) -> (r: Option<Attr<'a>>)
        ensures
            r is Some <==> node.kind == SyntaxKind::Attr,
            r matches Some(x) ==> x.node() == *node,
    {
        if node.kind == SyntaxKind::Attr {
            Some(Attr { node })
        } else {
            None
        }
    }
}

impl<'a> AstNode<'a> for AttrValue<'a> {
    closed spec fn node(&self) -> Node {
        *self.node
    }

    fn syntax(&self) -> (r: &'a Node) {
        self.node
    }
}

impl<'a> AttrValue<'a> {
    /// Cast a raw node into this typed node, if it is of the right kind.
    pub fn cast(node: &'a Node) -> (r: Option<AttrValue<'a>>)
        ensures
            r is Some <==> node.kind == SyntaxKind::AttrValue,
            r matches Some(x) ==> x.node() == *node,
    {
        if node.kind == SyntaxKind::AttrValue {
            Some(AttrValue { node })
        } else {
            None
        }
    }
}

impl<'a> AstNode<'a> for RefList<'a> {
    closed spec fn node(&self) -> Node {
        *self.node
    }

    fn syntax(&self) -> (r: &'a Node) {
        self.node
    }
}

impl<'a> RefList<'a> {
    /// Cast a raw node into this typed node, if it is of the right kind.
    pub fn cast(node: &'a Node) -> (r: Option<RefList<'a>>)
        ensures
            r is Some <==> node.kind == SyntaxKind::RefList,
            r matches Some(x) ==> x.node() == *node,
    {
        if node.kind == SyntaxKind::RefList {
            Some(RefList { node })
        } else {
            None
        }
    }
}

impl<'a> AstNode<'a> for Ref<'a> {
    closed spec fn node(&self) -> Node {
        *self.node
    }

    fn syntax(&self) -> (r: &'a Node) {
        self.node
    }
}

impl<'a> Ref<'a> {
    /// Cast a raw node into this typed node, if it is of the right kind.
    pub fn cast(node: &'a Node) -> (r: Option<Ref<'a>>)
        ensures
            r is Some <==> node.kind == SyntaxKind::Ref,
            r matches Some(x) ==> x.node() == *node,
    {
        if node.kind == SyntaxKind::Ref {
            Some(Ref { node })
        } else {
            None
        }
    }
}

impl<'a> AstNode<'a> for ReturnAnnotation<'a> {
    closed spec fn node(&self) -> Node {
        *self.node
    }

    fn syntax(&self) -> (r: &'a Node) {
        self.node
    }
}

impl<'a> ReturnAnnotation<'a> {
    /// Cast a raw node into this typed node, if it is of the right kind.
    pub fn cast(node: &'a Node) -> (r: Option<ReturnAnnotation<'a>>)
        ensures
            r is Some <==> node.kind == SyntaxKind::ReturnAnnotation,
            r matches Some(x) ==> x.node() == *node,
    {
        if node.kind == SyntaxKind::ReturnAnnotation {
            Some(ReturnAnnotation { node })
        } else {
            None
        }
    }
}

impl<'a> AstNode<'a> for PathList<'a> {
    closed spec fn node(&self) -> Node {
        *self.node
    }

    fn syntax(&self) -> (r: &'a Node) {
        self.node
    }
}

impl<'a> PathList<'a> {
    /// Cast a raw node into this typed node, if it is of the right kind.
    pub fn cast(node: &'a Node) -> (r: Option<PathList<'a>>)
        ensures
            r is Some <==> node.kind == SyntaxKind::PathList,
            r matches Some(x) ==> x.node() == *node,
    {
        if node.kind == SyntaxKind::PathList {
            Some(PathList { node })
        } else {
            None
        }
    }
}

impl<'a> AstNode<'a> for PathItem<'a> {
    closed spec fn node(&self) -> Node {
        *self.node
    }

    fn syntax(&self) -> (r: &'a Node) {
        self.node
    }
}

impl<'a> PathItem<'a> {
    /// Cast a raw node into this typed node, if it is of the right kind.
    pub fn cast(node: &'a Node) -> (r: Option<PathItem<'a>>)
        ensures
            r is Some <==> node.kind == SyntaxKind::PathItem,
            r matches Some(x) ==> x.node() == *node,
    {
        if node.kind == SyntaxKind::PathItem {
            Some(PathItem { node })
        } else {
            None
        }
    }
}

impl<'a> AstNode<'a> for Stage<'a> {
    closed spec fn node(&self) -> Node {
        *self.node
    }

    fn syntax(&self) -> (r: &'a Node) {
        self.node
    }
}

impl<'a> Stage<'a> {
    /// Cast a raw node into this typed node, if it is of the right kind.
    pub fn cast(node: &'a Node) -> (r: Option<Stage<'a>>)
        ensures
            r is Some <==> node.kind == SyntaxKind::Stage,
            r matches Some(x) ==> x.node() == *node,
    {
        if node.kind == SyntaxKind::Stage {
            Some(Stage { node })
        } else {
            None
        }
    }
}

impl<'a> AstNode<'a> for StageBody<'a> {
    closed spec fn node(&self) -> Node {
        *self.node
    }

    fn syntax(&self) -> (r: &'a Node) {
        self.node
    }
}

impl<'a> StageBody<'a> {
    /// Cast a raw node into this typed node, if it is of the right kind.
    pub fn cast(node: &'a Node) -> (r: Option<StageBody<'a>>)
        ensures
            r is Some <==> node.kind == SyntaxKind::StageBody,
            r matches Some(x) ==> x.node() == *node,
    {
        if node.kind == SyntaxKind::StageBody {
            Some(StageBody { node })
        } else {
            None
        }
    }
}

impl<'a> AstNode<'a> for Job<'a> {
    closed spec fn node(&self) -> Node {
        *self.node
    }

    fn syntax(&self) -> (r: &'a Node) {
        self.node
    }
}

impl<'a> Job<'a> {
    /// Cast a raw node into this typed node, if it is of the right kind.
    pub fn cast(node: &'a Node) -> (r: Option<Job<'a>>)
        ensures
            r is Some <==> node.kind == SyntaxKind::Job,
            r matches Some(x) ==> x.node() == *node,
    {
        if node.kind == SyntaxKind::Job {
            Some(Job { node })
        } else {
            None
        }
    }
}

impl<'a> AstNode<'a> for TemplateDef<'a> {
    closed spec fn node(&self) -> Node {
        *self.node
    }

    fn syntax(&self) -> (r: &'a Node) {
        self.node
    }
}

impl<'a> TemplateDef<'a> {
    /// Cast a raw node into this typed node, if it is of the right kind.
    pub fn cast(node: &'a Node) -> (r: Option<TemplateDef<'a>>)
        ensures
            r is Some <==> node.kind == SyntaxKind::TemplateDef,
            r matches Some(x) ==> x.node() == *node,
    {
        if node.kind == SyntaxKind::TemplateDef {
            Some(TemplateDef { node })
        } else {
            None
        }
    }
}

impl<'a> AstNode<'a> for JobBodyInline<'a> {
    closed spec fn node(&self) -> Node {
        *self.node
    }

    fn syntax(&self) -> (r: &'a Node) {
        self.node
    }
}

impl<'a> JobBodyInline<'a> {
    /// Cast a raw node into this typed node, if it is of the right kind.
    pub fn cast(node: &'a Node) -> (r: Option<JobBodyInline<'a>>)
        ensures
            r is Some <==> node.kind == SyntaxKind::JobBodyInline,
            r matches Some(x) ==> x.node() == *node,
    {
        if node.kind == SyntaxKind::JobBodyInline {
            Some(JobBodyInline { node })
        } else {
            None
        }
    }
}

impl<'a> AstNode<'a> for JobBodySteps<'a> {
    closed spec fn node(&self) -> Node {
        *self.node
    }

    fn syntax(&self) -> (r: &'a Node) {
        self.node
    }
}

impl<'a> JobBodySteps<'a> {
    /// Cast a raw node into this typed node, if it is of the right kind.
    pub fn cast(node: &'a Node) -> (r: Option<JobBodySteps<'a>>)
        ensures
            r is Some <==> node.kind == SyntaxKind::JobBodySteps,
            r matches Some(x) ==> x.node() == *node,
    {
        if node.kind == SyntaxKind::JobBodySteps {
            Some(JobBodySteps { node })
        } else {
            None
        }
    }
}

impl<'a> AstNode<'a> for Step<'a> {
    closed spec fn node(&self) -> Node {
        *self.node
    }

    fn syntax(&self) -> (r: &'a Node) {
        self.node
    }
}

impl<'a> Step<'a> {
    /// Cast a raw node into this typed node, if it is of the right kind.
    pub fn cast(node: &'a Node) -> (r: Option<Step<'a>>)
        ensures
            r is Some <==> node.kind == SyntaxKind::Step,
            r matches Some(x) ==> x.node() == *node,
    {
        if node.kind == SyntaxKind::Step {
            Some(Step { node })
        } else {
            None
        }
    }
}

impl<'a> AstNode<'a> for StepsKeyword<'a> {
    closed spec fn node(&self) -> Node {
        *self.node
    }

    fn syntax(&self) -> (r: &'a Node) {
        self.node
    }
}

impl<'a> StepsKeyword<'a> {
    /// Cast a raw node into this typed node, if it is of the right kind.
    pub fn cast(node: &'a Node) -> (r: Option<StepsKeyword<'a>>)
        ensures
            r is Some <==> node.kind == SyntaxKind::StepsKeyword,
            r matches Some(x) ==> x.node() == *node,
    {
        if node.kind == SyntaxKind::StepsKeyword {
            Some(StepsKeyword { node })
        } else {
            None
        }
    }
}

impl<'a> HasName<'a> for WorkflowDef<'a> {
    fn name_token(&self) -> (r: Option<&'a Token>) {
        name_token(self.node)
    }

    fn name(&self) -> (r: Option<String>) {
        name_of(self.node)
    }
}

impl<'a> HasName<'a> for Stage<'a> {
    fn name_token(&self) -> (r: Option<&'a Token>) {
        name_token(self.node)
    }

    fn name(&self) -> (r: Option<String>) {
        name_of(self.node)
    }
}

impl<'a> HasName<'a> for Job<'a> {
    fn name_token(&self) -> (r: Option<&'a Token>) {
        name_token(self.node)
    }

    fn name(&self) -> (r: Option<String>) {
        name_of(self.node)
    }
}

impl<'a> HasName<'a> for TemplateDef<'a> {
    fn name_token(&self) -> (r: Option<&'a Token>) {
        name_token(self.node)
    }

    fn name(&self) -> (r: Option<String>) {
        name_of(self.node)
    }
}

impl<'a> HasName<'a> for Step<'a> {
    fn name_token(&self) -> (r: Option<&'a Token>) {
        name_token(self.node)
    }

    fn name(&self) -> (r: Option<String>) {
        name_of(self.node)
    }
}

impl<'a> HasName<'a> for UseDecl<'a> {
    fn name_token(&self) -> (r: Option<&'a Token>) {
        name_token(self.node)
    }

    fn name(&self) -> (r: Option<String>) {
        name_of(self.node)
    }
}

impl<'a> HasAttrList<'a> for WorkflowDef<'a> {
    fn attr_list(&self) -> (r: Option<AttrList<'a>>) {
        attr_list_of(self.node)
    }
}

impl<'a> HasAttrList<'a> for Stage<'a> {
    fn attr_list(&self) -> (r: Option<AttrList<'a>>) {
        attr_list_of(self.node)
    }
}

impl<'a> HasAttrList<'a> for Job<'a> {
    fn attr_list(&self) -> (r: Option<AttrList<'a>>) {
        attr_list_of(self.node)
    }
}

impl<'a> HasAttrList<'a> for TemplateDef<'a> {
    fn attr_list(&self) -> (r: Option<AttrList<'a>>) {
        attr_list_of(self.node)
    }
}

impl<'a> HasAttrList<'a> for UseDecl<'a> {
    fn attr_list(&self) -> (r: Option<AttrList<'a>>) {
        attr_list_of(self.node)
    }
}

impl<'a> WorkflowDef<'a> {
    /// The `WorkflowBody` child.
    pub fn body(&self) -> (r: Option<WorkflowBody<'a>>)
        ensures
            r matches Some(c) ==> spec_child_node(self.node(), SyntaxKind::WorkflowBody) == Some(c.node()),
            r is None ==> spec_child_node(self.node(), SyntaxKind::WorkflowBody) is None,
    {
        match self.node.child_node(SyntaxKind::WorkflowBody) {
            Some(c) => Some(WorkflowBody { node: c }),
            None => None,
        }
    }
}

impl<'a> WorkflowBody<'a> {
    /// All `UseDecl` children.
    pub fn use_decls(&self) -> (r: Vec<UseDecl<'a>>)
        ensures
            r@.len() == spec_child_nodes(self.node().children@, SyntaxKind::UseDecl).len(),
            forall|i: int| 0 <= i < r@.len() ==> #[trigger] r@[i].node() == spec_child_nodes(self.node().children@, SyntaxKind::UseDecl)[i],
    {
        let cs = self.node.child_nodes(SyntaxKind::UseDecl);
        let mut r: Vec<UseDecl<'a>> = Vec::new();
        let mut i: usize = 0;
        while i < cs.len()
            invariant
                0 <= i <= cs@.len(),
                r@.len() == i,
                forall|j: int| 0 <= j < i ==> #[trigger] r@[j].node() == *cs@[j],
            decreases cs@.len() - i,
        {
            r.push(UseDecl { node: cs[i] });
            i = i + 1;
        }
        r
    }

    /// All `Stage` children.
    pub fn stages(&self) -> (r: Vec<Stage<'a>>)
        ensures
            r@.len() == spec_child_nodes(self.node().children@, SyntaxKind::Stage).len(),
            forall|i: int| 0 <= i < r@.len() ==> #[trigger] r@[i].node() == spec_child_nodes(self.node().children@, SyntaxKind::Stage)[i],
    {
        let cs = self.node.child_nodes(SyntaxKind::Stage);
        let mut r: Vec<Stage<'a>> = Vec::new();
        let mut i: usize = 0;
        while i < cs.len()
            invariant
                0 <= i <= cs@.len(),
                r@.len() == i,
                forall|j: int| 0 <= j < i ==> #[trigger] r@[j].node() == *cs@[j],
            decreases cs@.len() - i,
        {
            r.push(Stage { node: cs[i] });
            i = i + 1;
        }
        r
    }

    /// All `TemplateDef` children (outside any stage).
    pub fn templates(&self) -> (r: Vec<TemplateDef<'a>>)
        ensures
            r@.len() == spec_child_nodes(self.node().children@, SyntaxKind::TemplateDef).len(),
            forall|i: int| 0 <= i < r@.len() ==> #[trigger] r@[i].node() == spec_child_nodes(self.node().children@, SyntaxKind::TemplateDef)[i],
    {
        let cs = self.node.child_nodes(SyntaxKind::TemplateDef);
        let mut r: Vec<TemplateDef<'a>> = Vec::new();
        let mut i: usize = 0;
        while i < cs.len()
            invariant
                0 <= i <= cs@.len(),
                r@.len() == i,
                forall|j: int| 0 <= j < i ==> #[trigger] r@[j].node() == *cs@[j],
            decreases cs@.len() - i,
        {
            r.push(TemplateDef { node: cs[i] });
            i = i + 1;
        }
        r
    }

    /// `true` if this body is wrapped in braces.
    pub fn is_braced(&self) -> (r: bool)
        ensures
            r == spec_child_token(self.node(), SyntaxKind::LBrace) is Some,
    {
        self.node.child_token(SyntaxKind::LBrace).is_some()
    }
}

impl<'a> AttrList<'a> {
    /// All `Attr` children.
    pub fn attrs(&self) -> (r: Vec<Attr<'a>>)
        ensures
            r@.len() == spec_child_nodes(self.node().children@, SyntaxKind::Attr).len(),
            forall|i: int| 0 <= i < r@.len() ==> #[trigger] r@[i].node() == spec_child_nodes(self.node().children@, SyntaxKind::Attr)[i],
    {
        let cs = self.node.child_nodes(SyntaxKind::Attr);
        let mut r: Vec<Attr<'a>> = Vec::new();
        let mut i: usize = 0;
        while i < cs.len()
            invariant
                0 <= i <= cs@.len(),
                r@.len() == i,
                forall|j: int| 0 <= j < i ==> #[trigger] r@[j].node() == *cs@[j],
            decreases cs@.len() - i,
        {
            r.push(Attr { node: cs[i] });
            i = i + 1;
        }
        r
    }
}

impl<'a> AttrValue<'a> {
    /// The `RefList` child, if this is a list value.
    pub fn ref_list(&self) -> (r: Option<RefList<'a>>)
        ensures
            r matches Some(c) ==> spec_child_node(self.node(), SyntaxKind::RefList) == Some(c.node()),
            r is None ==> spec_child_node(self.node(), SyntaxKind::RefList) is None,
    {
        match self.node.child_node(SyntaxKind::RefList) {
            Some(c) => Some(RefList { node: c }),
            None => None,
        }
    }

    /// The `BareValue` token text, if this is a scalar value.
    pub fn bare_text(&self) -> (r: Option<String>)
        ensures
            r matches Some(s) ==> spec_bare_text(self.node()) == Some(s@),
            r is None ==> spec_bare_text(self.node()) is None,
    {
        match self.node.child_token(SyntaxKind::BareValue) {
            Some(t) => Some(t.text.clone()),
            None => None,
        }
    }
}

impl<'a> RefList<'a> {
    /// All `Ref` children.
    pub fn refs(&self) -> (r: Vec<Ref<'a>>)
        ensures
            r@.len() == spec_child_nodes(self.node().children@, SyntaxKind::Ref).len(),
            forall|i: int| 0 <= i < r@.len() ==> #[trigger] r@[i].node() == spec_child_nodes(self.node().children@, SyntaxKind::Ref)[i],
    {
        let cs = self.node.child_nodes(SyntaxKind::Ref);
        let mut r: Vec<Ref<'a>> = Vec::new();
        let mut i: usize = 0;
        while i < cs.len()
            invariant
                0 <= i <= cs@.len(),
                r@.len() == i,
                forall|j: int| 0 <= j < i ==> #[trigger] r@[j].node() == *cs@[j],
            decreases cs@.len() - i,
        {
            r.push(Ref { node: cs[i] });
            i = i + 1;
        }
        r
    }
}

/// The texts of the items among `items` that have one, in order.
pub open spec fn path_texts(items: Seq<Node>) -> Seq<Seq<char>>
    decreases items.len(),
{
    if items.len() == 0 {
        Seq::empty()
    } else {
        path_texts(items.drop_last()) + match spec_path_text(items.last()) {
            Some(t) => seq![t],
            None => Seq::empty(),
        }
    }
}

/// The items of the return annotation of the job or template `n`, in order;
/// none without one.
pub open spec fn spec_return_items(n: Node) -> Seq<Seq<char>> {
    match spec_child_node(n, SyntaxKind::ReturnAnnotation) {
        Some(ra) => match spec_child_node(ra, SyntaxKind::PathList) {
            Some(pl) => path_texts(spec_child_nodes(pl.children@, SyntaxKind::PathItem)),
            None => Seq::empty(),
        },
        None => Seq::empty(),
    }
}

/// The text of a path item's value, if it has one.
pub open spec fn spec_path_text(n: Node) -> Option<Seq<char>> {
    match spec_child_token(n, SyntaxKind::PathValue) {
        Some(t) => Some(t.text@),
        None => None,
    }
}

impl<'a> Job<'a> {
    /// The return annotation after the body, if any.
    pub fn return_annotation(&self) -> (r: Option<ReturnAnnotation<'a>>)
        ensures
            r matches Some(c) ==> spec_child_node(self.node(), SyntaxKind::ReturnAnnotation) == Some(c.node()),
            r is None ==> spec_child_node(self.node(), SyntaxKind::ReturnAnnotation) is None,
    {
        match self.node.child_node(SyntaxKind::ReturnAnnotation) {
            Some(c) => Some(ReturnAnnotation { node: c }),
            None => None,
        }
    }
}

impl<'a> TemplateDef<'a> {
    /// The return annotation after the body, if any.
    pub fn return_annotation(&self) -> (r: Option<ReturnAnnotation<'a>>)
        ensures
            r matches Some(c) ==> spec_child_node(self.node(), SyntaxKind::ReturnAnnotation) == Some(c.node()),
            r is None ==> spec_child_node(self.node(), SyntaxKind::ReturnAnnotation) is None,
    {
        match self.node.child_node(SyntaxKind::ReturnAnnotation) {
            Some(c) => Some(ReturnAnnotation { node: c }),
            None => None,
        }
    }
}

impl<'a> ReturnAnnotation<'a> {
    /// The `[ ... ]` list, if present.
    pub fn path_list(&self) -> (r: Option<PathList<'a>>)
        ensures
            r matches Some(c) ==> spec_child_node(self.node(), SyntaxKind::PathList) == Some(c.node()),
            r is None ==> spec_child_node(self.node(), SyntaxKind::PathList) is None,
    {
        match self.node.child_node(SyntaxKind::PathList) {
            Some(c) => Some(PathList { node: c }),
            None => None,
        }
    }
}

impl<'a> PathList<'a> {
    /// All `PathItem` children.
    pub fn items(&self) -> (r: Vec<PathItem<'a>>)
        ensures
            r@.len() == spec_child_nodes(self.node().children@, SyntaxKind::PathItem).len(),
            forall|i: int| 0 <= i < r@.len() ==> #[trigger] r@[i].node() == spec_child_nodes(self.node().children@, SyntaxKind::PathItem)[i],
    {
        let cs = self.node.child_nodes(SyntaxKind::PathItem);
        let mut r: Vec<PathItem<'a>> = Vec::new();
        let mut i: usize = 0;
        while i < cs.len()
            invariant
                0 <= i <= cs@.len(),
                r@.len() == i,
                forall|j: int| 0 <= j < i ==> #[trigger] r@[j].node() == *cs@[j],
            decreases cs@.len() - i,
        {
            r.push(PathItem { node: cs[i] });
            i = i + 1;
        }
        r
    }
}

impl<'a> PathItem<'a> {
    /// The item's text, if it has one.
    pub fn path_text(&self) -> (r: Option<String>)
        ensures
            r matches Some(s) ==> spec_path_text(self.node()) == Some(s@),
            r is None ==> spec_path_text(self.node()) is None,
    {
        match self.node.child_token(SyntaxKind::PathValue) {
            Some(t) => Some(t.text.clone()),
            None => None,
        }
    }
}

impl<'a> Stage<'a> {
    /// The `StageBody` child.
    pub fn body(&self) -> (r: Option<StageBody<'a>>)
        ensures
            r matches Some(c) ==> spec_child_node(self.node(), SyntaxKind::StageBody) == Some(c.node()),
            r is None ==> spec_child_node(self.node(), SyntaxKind::StageBody) is None,
    {
        match self.node.child_node(SyntaxKind::StageBody) {
            Some(c) => Some(StageBody { node: c }),
            None => None,
        }
    }
}

impl<'a> StageBody<'a> {
    /// All `Job` children.
    pub fn jobs(&self) -> (r: Vec<Job<'a>>)
        ensures
            r@.len() == spec_child_nodes(self.node().children@, SyntaxKind::Job).len(),
            forall|i: int| 0 <= i < r@.len() ==> #[trigger] r@[i].node() == spec_child_nodes(self.node().children@, SyntaxKind::Job)[i],
    {
        let cs = self.node.child_nodes(SyntaxKind::Job);
        let mut r: Vec<Job<'a>> = Vec::new();
        let mut i: usize = 0;
        while i < cs.len()
            invariant
                0 <= i <= cs@.len(),
                r@.len() == i,
                forall|j: int| 0 <= j < i ==> #[trigger] r@[j].node() == *cs@[j],
            decreases cs@.len() - i,
        {
            r.push(Job { node: cs[i] });
            i = i + 1;
        }
        r
    }

    /// All `TemplateDef` children.
    pub fn templates(&self) -> (r: Vec<TemplateDef<'a>>)
        ensures
            r@.len() == spec_child_nodes(self.node().children@, SyntaxKind::TemplateDef).len(),
            forall|i: int| 0 <= i < r@.len() ==> #[trigger] r@[i].node() == spec_child_nodes(self.node().children@, SyntaxKind::TemplateDef)[i],
    {
        let cs = self.node.child_nodes(SyntaxKind::TemplateDef);
        let mut r: Vec<TemplateDef<'a>> = Vec::new();
        let mut i: usize = 0;
        while i < cs.len()
            invariant
                0 <= i <= cs@.len(),
                r@.len() == i,
                forall|j: int| 0 <= j < i ==> #[trigger] r@[j].node() == *cs@[j],
            decreases cs@.len() - i,
        {
            r.push(TemplateDef { node: cs[i] });
            i = i + 1;
        }
        r
    }
}

impl<'a> Job<'a> {
    /// The inline body, if this is a single-step job.
    pub fn inline_body(&self) -> (r: Option<JobBodyInline<'a>>)
        ensures
            r matches Some(c) ==> spec_child_node(self.node(), SyntaxKind::JobBodyInline) == Some(c.node()),
            r is None ==> spec_child_node(self.node(), SyntaxKind::JobBodyInline) is None,
    {
        match self.node.child_node(SyntaxKind::JobBodyInline) {
            Some(c) => Some(JobBodyInline { node: c }),
            None => None,
        }
    }

    /// The step-list body, if present.
    pub fn steps_body(&self) -> (r: Option<JobBodySteps<'a>>)
        ensures
            r matches Some(c) ==> spec_child_node(self.node(), SyntaxKind::JobBodySteps) == Some(c.node()),
            r is None ==> spec_child_node(self.node(), SyntaxKind::JobBodySteps) is None,
    {
        match self.node.child_node(SyntaxKind::JobBodySteps) {
            Some(c) => Some(JobBodySteps { node: c }),
            None => None,
        }
    }
}

impl<'a> JobBodyInline<'a> {
    /// The raw shell body text, if present.
    pub fn shell_text(&self) -> (r: Option<String>)
        ensures
            r matches Some(s) ==> spec_child_token(self.node(), SyntaxKind::ShellBody) matches Some(t) && t.text@ == s@,
            r is None ==> spec_child_token(self.node(), SyntaxKind::ShellBody) is None,
    {
        match self.node.child_token(SyntaxKind::ShellBody) {
            Some(t) => Some(t.text.clone()),
            None => None,
        }
    }
}

impl<'a> JobBodySteps<'a> {
    /// All `Step` children (bare step references included).
    pub fn steps(&self) -> (r: Vec<Step<'a>>)
        ensures
            r@.len() == spec_child_nodes(self.node().children@, SyntaxKind::Step).len(),
            forall|i: int| 0 <= i < r@.len() ==> #[trigger] r@[i].node() == spec_child_nodes(self.node().children@, SyntaxKind::Step)[i],
    {
        let cs = self.node.child_nodes(SyntaxKind::Step);
        let mut r: Vec<Step<'a>> = Vec::new();
        let mut i: usize = 0;
        while i < cs.len()
            invariant
                0 <= i <= cs@.len(),
                r@.len() == i,
                forall|j: int| 0 <= j < i ==> #[trigger] r@[j].node() == *cs@[j],
            decreases cs@.len() - i,
        {
            r.push(Step { node: cs[i] });
            i = i + 1;
        }
        r
    }

    /// All `StepsKeyword` children.
    pub fn steps_keywords(&self) -> (r: Vec<StepsKeyword<'a>>)
        ensures
            r@.len() == spec_child_nodes(self.node().children@, SyntaxKind::StepsKeyword).len(),
            forall|i: int| 0 <= i < r@.len() ==> #[trigger] r@[i].node() == spec_child_nodes(self.node().children@, SyntaxKind::StepsKeyword)[i],
    {
        let cs = self.node.child_nodes(SyntaxKind::StepsKeyword);
        let mut r: Vec<StepsKeyword<'a>> = Vec::new();
        let mut i: usize = 0;
        while i < cs.len()
            invariant
                0 <= i <= cs@.len(),
                r@.len() == i,
                forall|j: int| 0 <= j < i ==> #[trigger] r@[j].node() == *cs@[j],
            decreases cs@.len() - i,
        {
            r.push(StepsKeyword { node: cs[i] });
            i = i + 1;
        }
        r
    }
}

impl<'a> Step<'a> {
    /// The raw shell body text, if this is a full step.
    pub fn shell_text(&self) -> (r: Option<String>)
        ensures
            r matches Some(s) ==> spec_child_token(self.node(), SyntaxKind::ShellBody) matches Some(t) && t.text@ == s@,
            r is None ==> spec_child_token(self.node(), SyntaxKind::ShellBody) is None,
    {
        match self.node.child_token(SyntaxKind::ShellBody) {
            Some(t) => Some(t.text.clone()),
            None => None,
        }
    }

    /// `true` if this step has a shell body (is not a bare reference).
    pub fn has_body(&self) -> (r: bool)
        ensures
            r == spec_child_token(self.node(), SyntaxKind::ShellBody) is Some,
    {
        self.shell_text().is_some()
    }
}

impl<'a> TemplateDef<'a> {
    /// The step-list body.
    pub fn body(&self) -> (r: Option<JobBodySteps<'a>>)
        ensures
            r matches Some(c) ==> spec_child_node(self.node(), SyntaxKind::JobBodySteps) == Some(c.node()),
            r is None ==> spec_child_node(self.node(), SyntaxKind::JobBodySteps) is None,
    {
        match self.node.child_node(SyntaxKind::JobBodySteps) {
            Some(c) => Some(JobBodySteps { node: c }),
            None => None,
        }
    }
}

/// The children of kind `k` of the bodies of `defs`, in order.
pub open spec fn spec_defs_children(defs: Seq<Node>, k: SyntaxKind) -> Seq<Node>
    decreases defs.len(),
{
    if defs.len() == 0 {
        Seq::empty()
    } else {
        spec_defs_children(defs.drop_last(), k) + match spec_child_node(defs.last(), SyntaxKind::WorkflowBody) {
            Some(b) => spec_child_nodes(b.children@, k),
            None => Seq::empty(),
        }
    }
}

/// The items of kind `k` in the bodies of every workflow of a file.
pub open spec fn spec_root_items(root: Node, k: SyntaxKind) -> Seq<Node> {
    spec_defs_children(spec_child_nodes(root.children@, SyntaxKind::WorkflowDef), k)
}

/// Index of the first attribute among `attrs` whose key is `key`.
pub open spec fn first_attr_with_key(attrs: Seq<Node>, key: Seq<char>, from: int) -> int
    decreases attrs.len() - from,
{
    if from < 0 || from >= attrs.len() {
        attrs.len() as int
    } else if spec_key_text(attrs[from]) == Some(key) {
        from
    } else {
        first_attr_with_key(attrs, key, from + 1)
    }
}

/// The first attribute of a node's attribute list whose key is `key`.
pub open spec fn spec_find_attr(n: Node, key: Seq<char>) -> Option<Node> {
    match spec_attr_list(n) {
        Some(al) => {
            let attrs = spec_child_nodes(al.children@, SyntaxKind::Attr);
            let i = first_attr_with_key(attrs, key, 0);
            if i < attrs.len() {
                Some(attrs[i])
            } else {
                None
            }
        },
        None => None,
    }
}

/// The scalar value of the first attribute of `n` with key `key`.
pub open spec fn spec_attr_scalar(n: Node, key: Seq<char>) -> Option<Seq<char>> {
    match spec_find_attr(n, key) {
        Some(a) => spec_value_text(a),
        None => None,
    }
}

pub open spec fn seq_strategy() -> Seq<char> {
    seq!['s', 't', 'r', 'a', 't', 'e', 'g', 'y']
}

pub open spec fn seq_path() -> Seq<char> {
    seq!['p', 'a', 't', 'h']
}

impl<'a> Root<'a> {
    /// All `WorkflowDef` children.
    pub fn workflow_defs(&self) -> (r: Vec<WorkflowDef<'a>>)
        ensures
            r@.len() == spec_child_nodes(self.node().children@, SyntaxKind::WorkflowDef).len(),
            forall|i: int| 0 <= i < r@.len() ==> #[trigger] r@[i].node() == spec_child_nodes(self.node().children@, SyntaxKind::WorkflowDef)[i],
    {
        let cs = self.node.child_nodes(SyntaxKind::WorkflowDef);
        let mut r: Vec<WorkflowDef<'a>> = Vec::new();
        let mut i: usize = 0;
        while i < cs.len()
            invariant
                0 <= i <= cs@.len(),
                r@.len() == i,
                forall|j: int| 0 <= j < i ==> #[trigger] r@[j].node() == *cs@[j],
            decreases cs@.len() - i,
        {
            r.push(WorkflowDef { node: cs[i] });
            i = i + 1;
        }
        r
    }

    /// The child nodes of kind `k` of every workflow body in the file.
    pub fn body_items(&self, k: SyntaxKind) -> (r: Vec<&'a Node>)
        ensures
            r@.len() == spec_root_items(self.node(), k).len(),
            forall|i: int| 0 <= i < r@.len() ==> *r@[i] == spec_root_items(self.node(), k)[i],
    {
        let defs = self.node.child_nodes(SyntaxKind::WorkflowDef);
        let ghost sdefs = spec_child_nodes(self.node().children@, SyntaxKind::WorkflowDef);
        let mut r: Vec<&'a Node> = Vec::new();
        let mut i: usize = 0;
        while i < defs.len()
            invariant
                0 <= i <= defs@.len(),
                defs@.len() == sdefs.len(),
                forall|j: int| 0 <= j < defs@.len() ==> *defs@[j] == sdefs[j],
                r@.len() == spec_defs_children(sdefs.take(i as int), k).len(),
                forall|j: int| 0 <= j < r@.len() ==> *r@[j] == spec_defs_children(sdefs.take(i as int), k)[j],
            decreases defs@.len() - i,
        {
            let ghost before = r@;
            assert(sdefs.take(i + 1).drop_last() =~= sdefs.take(i as int));
            assert(sdefs.take(i + 1).last() == sdefs[i as int]);
            match defs[i].child_node(SyntaxKind::WorkflowBody) {
                Some(b) => {
                    let cs = b.child_nodes(k);
                    let mut j: usize = 0;
                    while j < cs.len()
                        invariant
                            0 <= j <= cs@.len(),
                            r@.len() == before.len() + j,
                            forall|x: int| 0 <= x < before.len() ==> r@[x] == before[x],
                            forall|x: int| 0 <= x < j ==> r@[before.len() + x] == cs@[x],
                        decreases cs@.len() - j,
                    {
                        r.push(cs[j]);
                        j = j + 1;
                    }
                    proof {
                        let target = spec_defs_children(sdefs.take(i + 1), k);
                        assert(target =~= spec_defs_children(sdefs.take(i as int), k) + spec_child_nodes(b.children@, k));
                        let prev = spec_defs_children(sdefs.take(i as int), k);
                        let more = spec_child_nodes(b.children@, k);
                        assert(before.len() == prev.len());
                        assert(cs@.len() == more.len());
                        assert forall|x: int| 0 <= x < r@.len() implies *r@[x] == target[x] by {
                            if x >= before.len() {
                                assert(r@[x] == cs@[x - before.len()]);
                                assert(*cs@[x - before.len()] == more[x - before.len()]);
                                assert(target[x] == more[x - prev.len()]);
                            } else {
                                assert(r@[x] == before[x]);
                                assert(*before[x] == prev[x]);
                                assert(target[x] == prev[x]);
                            }
                        }
                    }
                },
                None => {
                    proof {
                        assert(spec_defs_children(sdefs.take(i + 1), k) =~= spec_defs_children(sdefs.take(i as int), k));
                    }
                },
            }
            i = i + 1;
        }
        assert(sdefs.take(defs@.len() as int) =~= sdefs);
        r
    }

    /// All `UseDecl` nodes across every workflow in this file.
    pub fn use_decls(&self) -> (r: Vec<UseDecl<'a>>)
        ensures
            r@.len() == spec_root_items(self.node(), SyntaxKind::UseDecl).len(),
            forall|i: int| 0 <= i < r@.len() ==> #[trigger] r@[i].node() == spec_root_items(self.node(), SyntaxKind::UseDecl)[i],
    {
        let cs = self.body_items(SyntaxKind::UseDecl);
        let mut r: Vec<UseDecl<'a>> = Vec::new();
        let mut i: usize = 0;
        while i < cs.len()
            invariant
                0 <= i <= cs@.len(),
                r@.len() == i,
                forall|j: int| 0 <= j < i ==> #[trigger] r@[j].node() == *cs@[j],
            decreases cs@.len() - i,
        {
            r.push(UseDecl { node: cs[i] });
            i = i + 1;
        }
        r
    }

    /// All `Stage` nodes across every workflow in this file.
    pub fn stages(&self) -> (r: Vec<Stage<'a>>)
        ensures
            r@.len() == spec_root_items(self.node(), SyntaxKind::Stage).len(),
            forall|i: int| 0 <= i < r@.len() ==> #[trigger] r@[i].node() == spec_root_items(self.node(), SyntaxKind::Stage)[i],
    {
        let cs = self.body_items(SyntaxKind::Stage);
        let mut r: Vec<Stage<'a>> = Vec::new();
        let mut i: usize = 0;
        while i < cs.len()
            invariant
                0 <= i <= cs@.len(),
                r@.len() == i,
                forall|j: int| 0 <= j < i ==> #[trigger] r@[j].node() == *cs@[j],
            decreases cs@.len() - i,
        {
            r.push(Stage { node: cs[i] });
            i = i + 1;
        }
        r
    }

    /// All top-level `TemplateDef` nodes (outside any stage) across every workflow.
    pub fn templates(&self) -> (r: Vec<TemplateDef<'a>>)
        ensures
            r@.len() == spec_root_items(self.node(), SyntaxKind::TemplateDef).len(),
            forall|i: int| 0 <= i < r@.len() ==> #[trigger] r@[i].node() == spec_root_items(self.node(), SyntaxKind::TemplateDef)[i],
    {
        let cs = self.body_items(SyntaxKind::TemplateDef);
        let mut r: Vec<TemplateDef<'a>> = Vec::new();
        let mut i: usize = 0;
        while i < cs.len()
            invariant
                0 <= i <= cs@.len(),
                r@.len() == i,
                forall|j: int| 0 <= j < i ==> #[trigger] r@[j].node() == *cs@[j],
            decreases cs@.len() - i,
        {
            r.push(TemplateDef { node: cs[i] });
            i = i + 1;
        }
        r
    }
}

/// Index of the first `Ident` or keyword token child.
pub fn key_token_of(n: &Node) -> (r: Option<&Token>)
    ensures
        r matches Some(t) ==> spec_key_token(*n) == Some(*t),
        r is None ==> spec_key_token(*n) is None,
{
    let mut i: usize = 0;
    while i < n.children.len()
        invariant
            0 <= i <= n.children@.len(),
            first_key_token(n.children@, 0) == first_key_token(n.children@, i as int),
        decreases n.children@.len() - i,
    {
        match &n.children[i] {
            Element::Token(t) => {
                if t.kind == SyntaxKind::Ident || crate::parser::is_keyword(t.kind) {
                    return Some(t);
                }
            },
            Element::Node(_) => {},
        }
        i = i + 1;
    }
    None
}

impl<'a> Attr<'a> {
    /// The key token (an `Ident` or keyword-as-name).
    pub fn key_token(&self) -> (r: Option<&'a Token>)
        ensures
            r matches Some(t) ==> spec_key_token(self.node()) == Some(*t),
            r is None ==> spec_key_token(self.node()) is None,
    {
        key_token_of(self.node)
    }

    /// The key text, if present.
    pub fn key_text(&self) -> (r: Option<String>)
        ensures
            r matches Some(s) ==> spec_key_text(self.node()) == Some(s@),
            r is None ==> spec_key_text(self.node()) is None,
    {
        match self.key_token() {
            Some(t) => Some(t.text.clone()),
            None => None,
        }
    }

    /// The `AttrValue` child.
    pub fn value(&self) -> (r: Option<AttrValue<'a>>)
        ensures
            r matches Some(c) ==> spec_attr_value(self.node()) == Some(c.node()),
            r is None ==> spec_attr_value(self.node()) is None,
    {
        match self.node.child_node(SyntaxKind::AttrValue) {
            Some(c) => Some(AttrValue { node: c }),
            None => None,
        }
    }

    /// The raw text of the attribute value, if it is a scalar.
    pub fn value_text(&self) -> (r: Option<String>)
        ensures
            r matches Some(s) ==> spec_value_text(self.node()) == Some(s@),
            r is None ==> spec_value_text(self.node()) is None,
    {
        match self.value() {
            Some(v) => v.bare_text(),
            None => None,
        }
    }

    /// `true` if the key of this attribute is `key`.
    pub fn has_key(&self, key: &str) -> (r: bool)
        ensures
            r == (spec_key_text(self.node()) == Some(key@)),
    {
        match self.key_token() {
            Some(t) => crate::text::str_eq(t.text.as_str(), key),
            None => false,
        }
    }
}

/// The first attribute of `node`'s attribute list whose key is `key`.
pub fn find_attr<'a>(node: &'a Node, key: &str) -> (r: Option<Attr<'a>>)
    ensures
        r matches Some(a) ==> spec_find_attr(*node, key@) == Some(a.node()),
        r is None ==> spec_find_attr(*node, key@) is None,
{
    let al = match attr_list_of(node) {
        Some(al) => al,
        None => return None,
    };
    let attrs = al.attrs();
    let ghost sattrs = spec_child_nodes(al.node().children@, SyntaxKind::Attr);
    let mut i: usize = 0;
    while i < attrs.len()
        invariant
            0 <= i <= attrs@.len(),
            attrs@.len() == sattrs.len(),
            spec_attr_list(*node) == Some(al.node()),
            sattrs == spec_child_nodes(al.node().children@, SyntaxKind::Attr),
            forall|j: int| 0 <= j < attrs@.len() ==> #[trigger] attrs@[j].node() == sattrs[j],
            first_attr_with_key(sattrs, key@, 0) == first_attr_with_key(sattrs, key@, i as int),
        decreases attrs@.len() - i,
    {
        if attrs[i].has_key(key) {
            let a = Attr { node: attrs[i].node };
            assert(a.node() == attrs@[i as int].node());
            assert(a.node() == sattrs[i as int]);
            assert(first_attr_with_key(sattrs, key@, i as int) == i);
            return Some(a);
        }
        assert(attrs@[i as int].node() == sattrs[i as int]);
        i = i + 1;
    }
    None
}

/// The scalar value of the first attribute of `node` with key `key`.
pub fn attr_scalar(node: &Node, key: &str) -> (r: Option<String>)
    ensures
        r matches Some(s) ==> spec_attr_scalar(*node, key@) == Some(s@),
        r is None ==> spec_attr_scalar(*node, key@) is None,
{
    match find_attr(node, key) {
        Some(a) => a.value_text(),
        None => None,
    }
}

impl<'a> WorkflowDef<'a> {
    /// The `strategy` attribute value, if present.
    pub fn strategy(&self) -> (r: Option<String>)
        ensures
            r matches Some(s) ==> spec_attr_scalar(self.node(), seq_strategy()) == Some(s@),
            r is None ==> spec_attr_scalar(self.node(), seq_strategy()) is None,
    {
        let key = "strategy";
        proof {
            reveal_strlit("strategy");
            assert(key@ =~= seq_strategy());
        }
        attr_scalar(self.node, key)
    }
}

impl<'a> UseDecl<'a> {
    /// The `path` attribute value, if present.
    pub fn path(&self) -> (r: Option<String>)
        ensures
            r matches Some(s) ==> spec_attr_scalar(self.node(), seq_path()) == Some(s@),
            r is None ==> spec_attr_scalar(self.node(), seq_path()) is None,
    {
        let key = "path";
        proof {
            reveal_strlit("path");
            assert(key@ =~= seq_path());
        }
        attr_scalar(self.node, key)
    }
}

impl<'a> Ref<'a> {
    /// The text of the reference (e.g. `build.build_debug`), without trivia.
    pub fn text(&self) -> (r: String)
        ensures
            r@ == spec_ref_text(self.node()),
    {
        let es = &self.node.children;
        let mut v: Vec<char> = Vec::new();
        let mut i: usize = 0;
        while i < es.len()
            invariant
                0 <= i <= es@.len(),
                es@ == self.node().children@,
                v@ == solid_text(es@, i as int),
            decreases es@.len() - i,
        {
            match &es[i] {
                Element::Token(t) => {
                    if !t.kind.is_trivia() {
                        let cs = crate::text::chars_of(t.text.as_str());
                        let mut j: usize = 0;
                        let ghost before = v@;
                        while j < cs.len()
                            invariant
                                0 <= j <= cs@.len(),
                                v@ == before + cs@.take(j as int),
                            decreases cs@.len() - j,
                        {
                            v.push(cs[j]);
                            j = j + 1;
                            assert(v@ =~= before + cs@.take(j as int));
                        }
                        assert(cs@.take(cs@.len() as int) =~= cs@);
                    }
                },
                Element::Node(_) => {},
            }
            i = i + 1;
        }
        string_from_chars(v.as_slice())
    }

    /// The stage and job of a `stage.job` reference.
    pub fn stage_job(&self) -> (r: Option<(String, String)>)
        ensures
            r matches Some((st, jb)) ==> spec_stage_job(self.node()) == Some((st@, jb@)),
            r is None ==> spec_stage_job(self.node()) is None,
    {
        let es = &self.node.children;
        let mut toks: Vec<&Token> = Vec::new();
        let mut i: usize = 0;
        while i < es.len()
            invariant
                0 <= i <= es@.len(),
                es@ == self.node().children@,
                toks@.len() == solid_tokens(es@, i as int).len(),
                forall|j: int| 0 <= j < toks@.len() ==> *toks@[j] == solid_tokens(es@, i as int)[j],
            decreases es@.len() - i,
        {
            match &es[i] {
                Element::Token(t) => {
                    if !t.kind.is_trivia() {
                        toks.push(t);
                    }
                },
                Element::Node(_) => {},
            }
            i = i + 1;
        }
        if toks.len() == 3 && toks[0].kind == SyntaxKind::Ident && toks[1].kind == SyntaxKind::Dot
            && toks[2].kind == SyntaxKind::Ident {
            Some((toks[0].text.clone(), toks[2].text.clone()))
        } else {
            None
        }
    }
}

} // verus!

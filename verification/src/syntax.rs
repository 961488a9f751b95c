use vstd::prelude::*;

verus! {

/// All token and node kinds used in the `ciane` concrete syntax tree.
///
/// Tokens come first (produced by the lexer), then composite node kinds.
#[derive(Debug, Clone, Copy, PartialEq, Eq, Structural)]
pub enum SyntaxKind {
    KwUse,
    KwStage,
    KwJob,
    KwStep,
    KwSteps,
    KwTemplate,
    KwWorkflow,
    KwDefaults,
    LBrace,
    RBrace,
    LBracket,
    RBracket,
    LParen,
    RParen,
    Eq,
    Comma,
    Slash,
    Dot,
    Arrow,
    /// Identifiers and item names.
    Ident,
    /// Attribute right-hand-side values: paths, image tags, registry URLs.
    BareValue,
    /// Raw shell text captured inside the braces of a step or inline job.
    ShellBody,
    /// A single path or glob captured inside a path list.
    PathValue,
    Whitespace,
    Newline,
    LineComment,
    Error,
    Eof,
    Root,
    WorkflowDef,
    WorkflowBody,
    UseDecl,
    AttrList,
    Attr,
    AttrValue,
    RefList,
    Ref,
    PathList,
    PathItem,
    Stage,
    StageBody,
    Job,
    TemplateDef,
    JobBodyInline,
    JobBodySteps,
    Step,
    StepRef,
    StepsKeyword,
    Name,
    ReturnAnnotation,
    ErrorNode,
    /// `workflow(location = …, name = …)` inside a `use { … }` block.
    WorkflowImport,
}

impl SyntaxKind {
    /// `true` for trivia tokens (whitespace, newlines, comments).
    pub open spec fn spec_is_trivia(self) -> bool {
        self == SyntaxKind::Whitespace || self == SyntaxKind::Newline || self == SyntaxKind::LineComment
    }

    /// Returns `true` for trivia tokens (whitespace, newlines, comments).
    #[verifier::when_used_as_spec(spec_is_trivia)]
    pub fn is_trivia(self) -> (b: bool)
        ensures
            b == self.spec_is_trivia(),
    {
        match self {
            SyntaxKind::Whitespace | SyntaxKind::Newline | SyntaxKind::LineComment => true,
            _ => false,
        }
    }
}

impl SyntaxKind {
    /// The name of a kind, as it is written in diagnostics.
    pub open spec fn spec_kind_name(self) -> Seq<char> {
        match self {
            SyntaxKind::KwUse => "KwUse"@,
            SyntaxKind::KwStage => "KwStage"@,
            SyntaxKind::KwJob => "KwJob"@,
            SyntaxKind::KwStep => "KwStep"@,
            SyntaxKind::KwSteps => "KwSteps"@,
            SyntaxKind::KwTemplate => "KwTemplate"@,
            SyntaxKind::KwWorkflow => "KwWorkflow"@,
            SyntaxKind::KwDefaults => "KwDefaults"@,
            SyntaxKind::LBrace => "LBrace"@,
            SyntaxKind::RBrace => "RBrace"@,
            SyntaxKind::LBracket => "LBracket"@,
            SyntaxKind::RBracket => "RBracket"@,
            SyntaxKind::LParen => "LParen"@,
            SyntaxKind::RParen => "RParen"@,
            SyntaxKind::Eq => "Eq"@,
            SyntaxKind::Comma => "Comma"@,
            SyntaxKind::Slash => "Slash"@,
            SyntaxKind::Dot => "Dot"@,
            SyntaxKind::Arrow => "Arrow"@,
            SyntaxKind::Ident => "Ident"@,
            SyntaxKind::BareValue => "BareValue"@,
            SyntaxKind::ShellBody => "ShellBody"@,
            SyntaxKind::PathValue => "PathValue"@,
            SyntaxKind::Whitespace => "Whitespace"@,
            SyntaxKind::Newline => "Newline"@,
            SyntaxKind::LineComment => "LineComment"@,
            SyntaxKind::Error => "Error"@,
            SyntaxKind::Eof => "Eof"@,
            SyntaxKind::Root => "Root"@,
            SyntaxKind::WorkflowDef => "WorkflowDef"@,
            SyntaxKind::WorkflowBody => "WorkflowBody"@,
            SyntaxKind::UseDecl => "UseDecl"@,
            SyntaxKind::AttrList => "AttrList"@,
            SyntaxKind::Attr => "Attr"@,
            SyntaxKind::AttrValue => "AttrValue"@,
            SyntaxKind::RefList => "RefList"@,
            SyntaxKind::Ref => "Ref"@,
            SyntaxKind::PathList => "PathList"@,
            SyntaxKind::PathItem => "PathItem"@,
            SyntaxKind::Stage => "Stage"@,
            SyntaxKind::StageBody => "StageBody"@,
            SyntaxKind::Job => "Job"@,
            SyntaxKind::TemplateDef => "TemplateDef"@,
            SyntaxKind::JobBodyInline => "JobBodyInline"@,
            SyntaxKind::JobBodySteps => "JobBodySteps"@,
            SyntaxKind::Step => "Step"@,
            SyntaxKind::StepRef => "StepRef"@,
            SyntaxKind::StepsKeyword => "StepsKeyword"@,
            SyntaxKind::Name => "Name"@,
            SyntaxKind::ReturnAnnotation => "ReturnAnnotation"@,
            SyntaxKind::ErrorNode => "ErrorNode"@,
            SyntaxKind::WorkflowImport => "WorkflowImport"@,
        }
    }

    /// The name of the kind, as it is written in diagnostics.
    pub fn name(self) -> (r: &'static str)
        ensures
            r@ == self.spec_kind_name(),
    {
        match self {
            SyntaxKind::KwUse => "KwUse",
            SyntaxKind::KwStage => "KwStage",
            SyntaxKind::KwJob => "KwJob",
            SyntaxKind::KwStep => "KwStep",
            SyntaxKind::KwSteps => "KwSteps",
            SyntaxKind::KwTemplate => "KwTemplate",
            SyntaxKind::KwWorkflow => "KwWorkflow",
            SyntaxKind::KwDefaults => "KwDefaults",
            SyntaxKind::LBrace => "LBrace",
            SyntaxKind::RBrace => "RBrace",
            SyntaxKind::LBracket => "LBracket",
            SyntaxKind::RBracket => "RBracket",
            SyntaxKind::LParen => "LParen",
            SyntaxKind::RParen => "RParen",
            SyntaxKind::Eq => "Eq",
            SyntaxKind::Comma => "Comma",
            SyntaxKind::Slash => "Slash",
            SyntaxKind::Dot => "Dot",
            SyntaxKind::Arrow => "Arrow",
            SyntaxKind::Ident => "Ident",
            SyntaxKind::BareValue => "BareValue",
            SyntaxKind::ShellBody => "ShellBody",
            SyntaxKind::PathValue => "PathValue",
            SyntaxKind::Whitespace => "Whitespace",
            SyntaxKind::Newline => "Newline",
            SyntaxKind::LineComment => "LineComment",
            SyntaxKind::Error => "Error",
            SyntaxKind::Eof => "Eof",
            SyntaxKind::Root => "Root",
            SyntaxKind::WorkflowDef => "WorkflowDef",
            SyntaxKind::WorkflowBody => "WorkflowBody",
            SyntaxKind::UseDecl => "UseDecl",
            SyntaxKind::AttrList => "AttrList",
            SyntaxKind::Attr => "Attr",
            SyntaxKind::AttrValue => "AttrValue",
            SyntaxKind::RefList => "RefList",
            SyntaxKind::Ref => "Ref",
            SyntaxKind::PathList => "PathList",
            SyntaxKind::PathItem => "PathItem",
            SyntaxKind::Stage => "Stage",
            SyntaxKind::StageBody => "StageBody",
            SyntaxKind::Job => "Job",
            SyntaxKind::TemplateDef => "TemplateDef",
            SyntaxKind::JobBodyInline => "JobBodyInline",
            SyntaxKind::JobBodySteps => "JobBodySteps",
            SyntaxKind::Step => "Step",
            SyntaxKind::StepRef => "StepRef",
            SyntaxKind::StepsKeyword => "StepsKeyword",
            SyntaxKind::Name => "Name",
            SyntaxKind::ReturnAnnotation => "ReturnAnnotation",
            SyntaxKind::ErrorNode => "ErrorNode",
            SyntaxKind::WorkflowImport => "WorkflowImport",
        }
    }
}

} // verus!

use cianity::lexer::LexerHandle;
use cianity::syntax::SyntaxKind;

#[test]
fn shell_body_capture() {
    let src = "{ cargo build --release\necho done }";
    let mut handle = LexerHandle::new(src);
    let lbrace = handle.next_token().unwrap();
    assert_eq!(lbrace.0, SyntaxKind::LBrace);
    // Enter shell mode after consuming the `{` token.
    handle.enter_shell_now();
    let body = handle.next_token().unwrap();
    assert_eq!(body.0, SyntaxKind::ShellBody);
    assert_eq!(body.1.trim(), "cargo build --release\necho done");
    let rbrace = handle.next_token().unwrap();
    assert_eq!(rbrace.0, SyntaxKind::RBrace);
}

#[test]
fn mod_shell_body_nested_braces() {
    let src = "{ echo ${VAR} }";
    let mut handle = LexerHandle::new(src);
    let _ = handle.next_token(); // LBrace
    handle.enter_shell_now();
    let body = handle.next_token().unwrap();
    assert_eq!(body.0, SyntaxKind::ShellBody);
    // Contains `${VAR}`: the inner braces are consumed into the body.
    assert!(body.1.contains("${VAR}"));
    let rbrace = handle.next_token().unwrap();
    assert_eq!(rbrace.0, SyntaxKind::RBrace);
}

#[test]
fn keywords_are_recognised() {
    let mut handle = LexerHandle::new("workflow stage job step steps template use defaults");
    let mut kinds = Vec::new();
    while let Some((kind, _)) = handle.next_token() {
        if kind != SyntaxKind::Whitespace {
            kinds.push(kind);
        }
        if kind == SyntaxKind::Eof {
            break;
        }
    }
    assert_eq!(
        &kinds[..8],
        &[
            SyntaxKind::KwWorkflow,
            SyntaxKind::KwStage,
            SyntaxKind::KwJob,
            SyntaxKind::KwStep,
            SyntaxKind::KwSteps,
            SyntaxKind::KwTemplate,
            SyntaxKind::KwUse,
            SyntaxKind::KwDefaults,
        ]
    );
}

#[test]
fn line_comment_then_keyword() {
    let mut handle = LexerHandle::new("# this is a comment\nstage");
    assert_eq!(handle.next_token().unwrap().0, SyntaxKind::LineComment);
    assert_eq!(handle.next_token().unwrap().0, SyntaxKind::Newline);
    assert_eq!(handle.next_token().unwrap().0, SyntaxKind::KwStage);
}

/// Lex `src` and return all `(kind, text)` pairs, `Eof` included.
fn lex_all(src: &str) -> Vec<(SyntaxKind, String)> {
    let mut handle = LexerHandle::new(src);
    let mut out = Vec::new();
    loop {
        if let Some(tok) = handle.next_token() {
            out.push(tok);
        } else {
            out.push((SyntaxKind::Eof, String::new()));
            break;
        }
    }
    out
}

fn kinds(src: &str) -> Vec<SyntaxKind> {
    lex_all(src).into_iter().map(|(k, _)| k).collect()
}

#[test]
fn empty_input() {
    assert_eq!(kinds(""), vec![SyntaxKind::Eof]);
}

#[test]
fn keywords() {
    let got = kinds("use stage job step steps template workflow defaults");
    let expected = [
        SyntaxKind::KwUse,
        SyntaxKind::Whitespace,
        SyntaxKind::KwStage,
        SyntaxKind::Whitespace,
        SyntaxKind::KwJob,
        SyntaxKind::Whitespace,
        SyntaxKind::KwStep,
        SyntaxKind::Whitespace,
        SyntaxKind::KwSteps,
        SyntaxKind::Whitespace,
        SyntaxKind::KwTemplate,
        SyntaxKind::Whitespace,
        SyntaxKind::KwWorkflow,
        SyntaxKind::Whitespace,
        SyntaxKind::KwDefaults,
        SyntaxKind::Eof,
    ];
    assert_eq!(got, expected);
}

#[test]
fn ident_vs_keyword() {
    let got = kinds("stage_name build");
    assert_eq!(
        got,
        vec![
            SyntaxKind::Ident,
            SyntaxKind::Whitespace,
            SyntaxKind::Ident,
            SyntaxKind::Eof,
        ]
    );
}

#[test]
fn attr_value_image_tag() {
    // "image = rust:1.94.0," — the `=` switches to attribute-value mode;
    // the next token is the bare value "rust:1.94.0".
    let src = "(image = rust:1.94.0,)";
    let toks = lex_all(src);
    let bare = toks
        .iter()
        .find(|(k, _)| *k == SyntaxKind::BareValue)
        .map(|(_, t)| t.as_str());
    assert_eq!(bare, Some("rust:1.94.0"));
}

#[test]
fn attr_value_list_not_bare() {
    // "dependencies = [build.build_debug]" — the `[` keeps the lexer out of
    // attribute-value mode, so no bare value appears and `[` follows `=`.
    let src = "(dependencies = [build.build_debug])";
    let toks = lex_all(src);
    let has_bare = toks.iter().any(|(k, _)| *k == SyntaxKind::BareValue);
    assert!(!has_bare, "unexpected BareValue token in ref-list attr");
    let kinds_only: Vec<_> = toks
        .iter()
        .filter(|(k, _)| !matches!(k, SyntaxKind::Whitespace | SyntaxKind::Eof))
        .map(|(k, _)| *k)
        .collect();
    // Contains LBracket, Ident, Dot, Ident, RBracket.
    assert!(kinds_only.contains(&SyntaxKind::LBracket));
    assert!(kinds_only.contains(&SyntaxKind::Dot));
}

#[test]
fn line_comment() {
    let got = kinds("# this is a comment\nstage");
    assert_eq!(
        got,
        vec![
            SyntaxKind::LineComment,
            SyntaxKind::Newline,
            SyntaxKind::KwStage,
            SyntaxKind::Eof,
        ]
    );
}

#[test]
fn punctuation() {
    let got: Vec<_> = lex_all("{ } [ ] ( ) = , / .")
        .into_iter()
        .filter(|(k, _)| !matches!(k, SyntaxKind::Whitespace | SyntaxKind::Eof))
        .map(|(k, _)| k)
        .collect();
    assert_eq!(
        got,
        vec![
            SyntaxKind::LBrace,
            SyntaxKind::RBrace,
            SyntaxKind::LBracket,
            SyntaxKind::RBracket,
            SyntaxKind::LParen,
            SyntaxKind::RParen,
            SyntaxKind::Eq,
            SyntaxKind::Comma,
            SyntaxKind::Slash,
            SyntaxKind::Dot,
        ]
    );
}

#[test]
fn unknown_character_is_one_error_token_counted_in_characters() {
    let mut handle = LexerHandle::new("é");
    assert_eq!(handle.next_token_span(), Some((SyntaxKind::Error, 0, 1)));
    assert_eq!(handle.next_token_span(), None);
}

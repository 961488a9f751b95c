use vstd::prelude::*;

use crate::ast::{AstNode, Root};
use crate::formatter::spec_format;
use crate::parser::{Parse, parse, parse_errors, parses_to};

verus! {

/// What to do with the file once it is formatted.
pub enum FormatOutcome {
    /// The file is formatted already.
    Unchanged,
    /// The formatted text, to be written back.
    Rewrite(String),
}

/// `source` parses without errors into a tree that the formatter refuses,
/// and `m` names the file and says why.
pub open spec fn format_refused(path: Seq<char>, source: Seq<char>, m: Seq<char>) -> bool {
    exists|tree: crate::cst::Node| #![trigger parses_to(source, tree)]
        parses_to(source, tree) && parse_errors(source).len() == 0
            && spec_format(tree) is Err
            && m == path + ": "@ + "`defaults` blocks are not yet supported by the formatter"@
}

/// `source` parses without errors into a tree whose formatted text differs
/// from it.
pub open spec fn not_formatted(source: Seq<char>) -> bool {
    exists|tree: crate::cst::Node| #![trigger parses_to(source, tree)]
        parses_to(source, tree) && parse_errors(source).len() == 0
            && spec_format(tree) is Ok && spec_format(tree)->Ok_0 != source
}

pub open spec fn parse_errors_refusal(path: Seq<char>) -> Seq<char> {
    "cannot format "@ + path + ": file has parse errors"@
}

pub open spec fn unsupported_refusal(path: Seq<char>) -> Seq<char> {
    path + ": "@ + "`defaults` blocks are not yet supported by the formatter"@
}

pub open spec fn not_formatted_message(path: Seq<char>) -> Seq<char> {
    path + " is not formatted"@
}

/// `r` is what formatting the file at `path`, with text `source` and the
/// tree `tree` free of parse errors, gives: refused when the formatter can't
/// handle the tree; otherwise, in check mode, unchanged when the formatted
/// text is `source` and refused when it differs, and in write mode the
/// formatted text.
pub open spec fn format_outcome(
    path: Seq<char>,
    source: Seq<char>,
    tree: crate::cst::Node,
    check_only: bool,
    r: Result<FormatOutcome, String>,
) -> bool {
    match spec_format(tree) {
        Err(_) => r matches Err(m) && m@ == unsupported_refusal(path),
        Ok(t) => if !check_only {
            r matches Ok(FormatOutcome::Rewrite(f)) && f@ == t
        } else if t == source {
            r matches Ok(FormatOutcome::Unchanged)
        } else {
            r matches Err(m) && m@ == not_formatted_message(path)
        },
    }
}

/// Format the file at `path`, whose text is `source` and whose parse is
/// `result`: refused when it has parse errors or the formatter can't handle
/// its tree; otherwise, in check mode, unchanged when the formatted text is
/// `source` and refused when it differs, and in write mode the formatted
/// text.
pub fn format_parsed(path: &str, source: &str, result: &Parse, check_only: bool) -> (r: Result<FormatOutcome, String>)
    ensures
        result.error_list().len() > 0 || result.tree().kind != crate::syntax::SyntaxKind::Root
            ==> (r matches Err(m) && m@ == parse_errors_refusal(path@)),
        result.error_list().len() == 0 && result.tree().kind == crate::syntax::SyntaxKind::Root ==> match spec_format(result.tree()) {
            Err(_) => r matches Err(m) && m@ == unsupported_refusal(path@),
            Ok(t) => if !check_only {
                r matches Ok(FormatOutcome::Rewrite(f)) && f@ == t
            } else if t == source@ {
                r matches Ok(FormatOutcome::Unchanged)
            } else {
                r matches Err(m) && m@ == not_formatted_message(path@)
            },
        },
{
    if !result.is_ok() {
        let mut m = String::new();
        m.append("cannot format ");
        m.append(path);
        m.append(": file has parse errors");
        return Err(m);
    }
    let root = match Root::cast(result.syntax()) {
        Some(r) => r,
        None => {
            let mut m = String::new();
            m.append("cannot format ");
            m.append(path);
            m.append(": file has parse errors");
            return Err(m);
        },
    };
    assert(root.node() == result.tree());
    let formatted = match crate::formatter::format(&root) {
        Ok(f) => f,
        Err(e) => {
            let mut m = path.to_owned();
            m.append(": ");
            m.append(e.message().as_str());
            return Err(m);
        },
    };
    if check_only {
        if crate::text::str_eq(source, formatted.as_str()) {
            Ok(FormatOutcome::Unchanged)
        } else {
            let mut m = path.to_owned();
            m.append(" is not formatted");
            Err(m)
        }
    } else {
        Ok(FormatOutcome::Rewrite(formatted))
    }
}

/// Format the file at `path`, whose text is `source`.
///
/// In check mode, fails if the text differs from the formatted output; in
/// write mode, gives the formatted text to write back. Fails, naming the
/// file, if it has parse errors or the formatter cannot handle a construct
/// in it.
pub fn run(path: &str, source: &str, check_only: bool) -> (r: Result<FormatOutcome, String>)
    ensures
        r matches Ok(FormatOutcome::Rewrite(t)) ==> !check_only && exists|tree: crate::cst::Node|
            #[trigger] parses_to(source@, tree)
            && spec_format(tree) == Ok::<Seq<char>, crate::formatter::FormatError>(t@),
        r matches Ok(FormatOutcome::Unchanged) ==> check_only && exists|tree: crate::cst::Node|
            #[trigger] parses_to(source@, tree)
            && spec_format(tree) == Ok::<Seq<char>, crate::formatter::FormatError>(source@),
        r matches Err(m) ==> m@ == "cannot format "@ + path@ + ": file has parse errors"@ || format_refused(path@, source@, m@)
            || (check_only && m@ == path@ + " is not formatted"@ && not_formatted(source@)),
        parse_errors(source@).len() > 0 ==> (r matches Err(m) && m@ == parse_errors_refusal(path@)),
        parse_errors(source@).len() == 0 ==> exists|tree: crate::cst::Node|
            #[trigger] parses_to(source@, tree) && format_outcome(path@, source@, tree, check_only, r),
{
    let result = parse(source);
    let r = format_parsed(path, source, &result, check_only);
    proof {
        let tree = result.tree();
        assert(crate::cst::node_text(tree) == source@);
        assert(parses_to(source@, tree));
        if result.error_list().len() == 0 {
            match spec_format(tree) {
                Err(_) => {
                    assert(format_refused(path@, source@, unsupported_refusal(path@)));
                },
                Ok(t) => {
                    if check_only && t != source@ {
                        assert(not_formatted(source@));
                    }
                },
            }
        }
    }
    r
}

} // verus!

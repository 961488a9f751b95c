use vstd::prelude::*;

use crate::syntax::SyntaxKind;
use crate::text::{chars_of, substring};

verus! {

// ─── character classes ───────────────────────────────────────────────────────

/// The character classes the lexer scans runs of.
#[derive(Clone, Copy, PartialEq, Eq, Structural)]
pub enum CharClass {
    /// Horizontal whitespace: space or tab.
    HSpace,
    /// Anything but a line break.
    NotEol,
    /// Characters that may continue an identifier.
    IdentContinue,
    /// Anything that does not end an attribute value (`,`, `)`, line break).
    AttrValueBody,
    /// Anything that does not end a path item (`,`, `]`, line break).
    PathItemBody,
}

pub open spec fn is_hspace(c: char) -> bool {
    c == ' ' || c == '\t'
}

pub open spec fn is_ascii_alpha(c: char) -> bool {
    ('a' <= c && c <= 'z') || ('A' <= c && c <= 'Z')
}

pub open spec fn is_ascii_digit(c: char) -> bool {
    '0' <= c && c <= '9'
}

pub open spec fn spec_is_ident_start(c: char) -> bool {
    is_ascii_alpha(c) || c == '_'
}

pub open spec fn spec_is_ident_continue(c: char) -> bool {
    is_ascii_alpha(c) || is_ascii_digit(c) || c == '_' || c == '-'
}

pub open spec fn in_class(class: CharClass, c: char) -> bool {
    match class {
        CharClass::HSpace => is_hspace(c),
        CharClass::NotEol => c != '\n' && c != '\r',
        CharClass::IdentContinue => spec_is_ident_continue(c),
        CharClass::AttrValueBody => c != ',' && c != ')' && c != '\n' && c != '\r',
        CharClass::PathItemBody => c != ',' && c != ']' && c != '\n' && c != '\r',
    }
}

/// Length of the longest run of `class` characters in `s` starting at `p`.
pub open spec fn run_len(s: Seq<char>, p: int, class: CharClass) -> int
    decreases s.len() - p,
{
    if 0 <= p < s.len() && in_class(class, s[p]) {
        1 + run_len(s, p + 1, class)
    } else {
        0
    }
}

/// `hi` moved back over any horizontal whitespace, but not below `lo`.
pub open spec fn trim_end(s: Seq<char>, lo: int, hi: int) -> int
    decreases hi - lo,
{
    if hi > lo && is_hspace(s[hi - 1]) {
        trim_end(s, lo, hi - 1)
    } else {
        hi
    }
}

pub proof fn lemma_run_len_bounds(s: Seq<char>, p: int, class: CharClass)
    requires
        0 <= p <= s.len(),
    ensures
        0 <= run_len(s, p, class) <= s.len() - p,
    decreases s.len() - p,
{
    if p < s.len() && in_class(class, s[p]) {
        lemma_run_len_bounds(s, p + 1, class);
    }
}

pub proof fn lemma_trim_end_bounds(s: Seq<char>, lo: int, hi: int)
    requires
        lo <= hi,
    ensures
        lo <= trim_end(s, lo, hi) <= hi,
    decreases hi - lo,
{
    if hi > lo && is_hspace(s[hi - 1]) {
        lemma_trim_end_bounds(s, lo, hi - 1);
    }
}

// ─── keywords ────────────────────────────────────────────────────────────────

/// The keyword a word spells, if it is a reserved word.
pub open spec fn spec_keyword_kind(t: Seq<char>) -> Option<SyntaxKind> {
    if t == seq!['u', 's', 'e'] {
        Some(SyntaxKind::KwUse)
    } else if t == seq!['s', 't', 'a', 'g', 'e'] {
        Some(SyntaxKind::KwStage)
    } else if t == seq!['j', 'o', 'b'] {
        Some(SyntaxKind::KwJob)
    } else if t == seq!['s', 't', 'e', 'p'] {
        Some(SyntaxKind::KwStep)
    } else if t == seq!['s', 't', 'e', 'p', 's'] {
        Some(SyntaxKind::KwSteps)
    } else if t == seq!['t', 'e', 'm', 'p', 'l', 'a', 't', 'e'] {
        Some(SyntaxKind::KwTemplate)
    } else if t == seq!['w', 'o', 'r', 'k', 'f', 'l', 'o', 'w'] {
        Some(SyntaxKind::KwWorkflow)
    } else if t == seq!['d', 'e', 'f', 'a', 'u', 'l', 't', 's'] {
        Some(SyntaxKind::KwDefaults)
    } else {
        None
    }
}

/// `true` if `t[start..end]` spells `w`.
fn word_at(t: &[char], start: usize, end: usize, w: &[char]) -> (r: bool)
    requires
        start <= end <= t@.len(),
    ensures
        r == (t@.subrange(start as int, end as int) == w@),
{
    if end - start != w.len() {
        return false;
    }
    let mut i: usize = 0;
    while i < w.len()
        invariant
            start <= end <= t@.len(),
            end - start == w@.len(),
            0 <= i <= w@.len(),
            forall|j: int| 0 <= j < i ==> t@[start + j] == w@[j],
        decreases w@.len() - i,
    {
        if t[start + i] != w[i] {
            assert(t@.subrange(start as int, end as int)[i as int] != w@[i as int]);
            return false;
        }
        i = i + 1;
    }
    assert(t@.subrange(start as int, end as int) =~= w@);
    true
}

/// The keyword `t[start..end]` spells, if any.
fn keyword_in(t: &[char], start: usize, end: usize) -> (r: Option<SyntaxKind>)
    requires
        start <= end <= t@.len(),
    ensures
        r == spec_keyword_kind(t@.subrange(start as int, end as int)),
{
    let ghost w = t@.subrange(start as int, end as int);
    let kw_use = ['u', 's', 'e'];
    let kw_stage = ['s', 't', 'a', 'g', 'e'];
    let kw_job = ['j', 'o', 'b'];
    let kw_step = ['s', 't', 'e', 'p'];
    let kw_steps = ['s', 't', 'e', 'p', 's'];
    let kw_template = ['t', 'e', 'm', 'p', 'l', 'a', 't', 'e'];
    let kw_workflow = ['w', 'o', 'r', 'k', 'f', 'l', 'o', 'w'];
    let kw_defaults = ['d', 'e', 'f', 'a', 'u', 'l', 't', 's'];
    assert(kw_use@ =~= seq!['u', 's', 'e']);
    assert(kw_stage@ =~= seq!['s', 't', 'a', 'g', 'e']);
    assert(kw_job@ =~= seq!['j', 'o', 'b']);
    assert(kw_step@ =~= seq!['s', 't', 'e', 'p']);
    assert(kw_steps@ =~= seq!['s', 't', 'e', 'p', 's']);
    assert(kw_template@ =~= seq!['t', 'e', 'm', 'p', 'l', 'a', 't', 'e']);
    assert(kw_workflow@ =~= seq!['w', 'o', 'r', 'k', 'f', 'l', 'o', 'w']);
    assert(kw_defaults@ =~= seq!['d', 'e', 'f', 'a', 'u', 'l', 't', 's']);
    if word_at(t, start, end, kw_use.as_slice()) {
        Some(SyntaxKind::KwUse)
    } else if word_at(t, start, end, kw_stage.as_slice()) {
        Some(SyntaxKind::KwStage)
    } else if word_at(t, start, end, kw_job.as_slice()) {
        Some(SyntaxKind::KwJob)
    } else if word_at(t, start, end, kw_step.as_slice()) {
        Some(SyntaxKind::KwStep)
    } else if word_at(t, start, end, kw_steps.as_slice()) {
        Some(SyntaxKind::KwSteps)
    } else if word_at(t, start, end, kw_template.as_slice()) {
        Some(SyntaxKind::KwTemplate)
    } else if word_at(t, start, end, kw_workflow.as_slice()) {
        Some(SyntaxKind::KwWorkflow)
    } else if word_at(t, start, end, kw_defaults.as_slice()) {
        Some(SyntaxKind::KwDefaults)
    } else {
        None
    }
}

/// Maps a bare identifier string to a keyword `SyntaxKind`, if it is a reserved word.
pub fn keyword_kind(text: &str) -> (r: Option<SyntaxKind>)
    ensures
        r == spec_keyword_kind(text@),
{
    let t = chars_of(text);
    let r = keyword_in(t.as_slice(), 0, t.len());
    assert(t@.subrange(0, t@.len() as int) =~= text@);
    r
}

// ─── lexer state ─────────────────────────────────────────────────────────────

/// The lexer context determines how raw input is tokenised.
#[derive(Clone, Copy, PartialEq, Eq, Structural)]
pub enum LexMode {
    /// Keywords, identifiers, punctuation, trivia.
    Normal,
    /// After `=` inside an attribute list: everything up to `,`, `)` or a line
    /// break is one `BareValue`.
    AttrValue,
    /// Inside the braces of a step or single-step job: raw text.
    Shell,
    /// One item of a path list: everything up to `,`, `]` or a line break.
    PathItem,
}

pub open spec fn mode_weight(m: LexMode) -> nat {
    match m {
        LexMode::Normal => 0,
        LexMode::PathItem => 1,
        LexMode::AttrValue => 2,
        LexMode::Shell => 3,
    }
}

/// The position just past the horizontal whitespace at `p`.
pub open spec fn skip_hspace(s: Seq<char>, p: int) -> int {
    p + run_len(s, p, CharClass::HSpace)
}

/// `true` if the next non-whitespace character at or after `p` is `[`.
pub open spec fn spec_next_non_ws_is_bracket(s: Seq<char>, p: int) -> bool {
    let q = skip_hspace(s, p);
    0 <= q < s.len() && s[q] == '['
}

/// Kind and length of the token the normal mode reads at `p`, for `p < s.len()`.
pub open spec fn normal_token(s: Seq<char>, p: int) -> (SyntaxKind, int) {
    let c = s[p];
    if is_hspace(c) {
        (SyntaxKind::Whitespace, run_len(s, p, CharClass::HSpace))
    } else if c == '\n' {
        (SyntaxKind::Newline, 1)
    } else if c == '\r' {
        if p + 1 < s.len() && s[p + 1] == '\n' {
            (SyntaxKind::Newline, 2)
        } else {
            (SyntaxKind::Newline, 1)
        }
    } else if c == '#' {
        (SyntaxKind::LineComment, run_len(s, p, CharClass::NotEol))
    } else if c == '{' {
        (SyntaxKind::LBrace, 1)
    } else if c == '}' {
        (SyntaxKind::RBrace, 1)
    } else if c == '[' {
        (SyntaxKind::LBracket, 1)
    } else if c == ']' {
        (SyntaxKind::RBracket, 1)
    } else if c == '(' {
        (SyntaxKind::LParen, 1)
    } else if c == ')' {
        (SyntaxKind::RParen, 1)
    } else if c == '=' {
        (SyntaxKind::Eq, 1)
    } else if c == ',' {
        (SyntaxKind::Comma, 1)
    } else if c == '/' {
        (SyntaxKind::Slash, 1)
    } else if c == '.' {
        (SyntaxKind::Dot, 1)
    } else if c == '-' && p + 1 < s.len() && s[p + 1] == '>' {
        (SyntaxKind::Arrow, 2)
    } else if spec_is_ident_start(c) {
        let n = run_len(s, p, CharClass::IdentContinue);
        match spec_keyword_kind(s.subrange(p, p + n)) {
            Some(k) => (k, n),
            None => (SyntaxKind::Ident, n),
        }
    } else {
        (SyntaxKind::Error, 1)
    }
}

/// End of the raw text of a shell body starting at `p` with brace depth
/// `depth`, and the depth there: the first `}` at depth zero, or the end of
/// the input.
pub open spec fn shell_scan(s: Seq<char>, p: int, depth: nat) -> (int, nat)
    decreases s.len() - p,
{
    if p < 0 || p >= s.len() {
        (s.len() as int, depth)
    } else if s[p] == '{' {
        shell_scan(s, p + 1, depth + 1)
    } else if s[p] == '}' {
        if depth == 0 {
            (p, 0)
        } else {
            shell_scan(s, p + 1, (depth - 1) as nat)
        }
    } else {
        shell_scan(s, p + 1, depth)
    }
}

pub proof fn lemma_shell_scan(s: Seq<char>, p: int, depth: nat)
    requires
        0 <= p <= s.len(),
    ensures
        p <= shell_scan(s, p, depth).0 <= s.len(),
        shell_scan(s, p, depth).0 < s.len() ==> s[shell_scan(s, p, depth).0] == '}'
            && shell_scan(s, p, depth).1 == 0,
        shell_scan(s, p, depth).1 <= depth + (s.len() - p),
    decreases s.len() - p,
{
    if p < s.len() {
        if s[p] == '{' {
            lemma_shell_scan(s, p + 1, depth + 1);
        } else if s[p] == '}' {
            if depth != 0 {
                lemma_shell_scan(s, p + 1, (depth - 1) as nat);
            }
        } else {
            lemma_shell_scan(s, p + 1, depth);
        }
    }
}

/// Where a lexer stands, as plain values: its position, its mode, and the
/// brace and parenthesis depths it tracks.
pub struct LexView {
    pub pos: int,
    pub mode: LexMode,
    pub shell_depth: nat,
    pub paren_depth: nat,
}

/// The token the lexer reads next over `s` from `l`, as its kind and span,
/// and where it stands afterwards; no token at the end of the input.
pub open spec fn lex_step(s: Seq<char>, l: LexView) -> (Option<(SyntaxKind, int, int)>, LexView) {
    let p = l.pos;
    match l.mode {
        LexMode::Normal => if p >= s.len() {
            (None, l)
        } else {
            normal_step(s, l)
        },
        LexMode::AttrValue => {
            let ws = run_len(s, p, CharClass::HSpace);
            let e = trim_end(s, p, p + run_len(s, p, CharClass::AttrValueBody));
            if ws > 0 {
                (Some((SyntaxKind::Whitespace, p, p + ws)), LexView { pos: p + ws, ..l })
            } else {
                (
                    Some((if e == p { SyntaxKind::Error } else { SyntaxKind::BareValue }, p, e)),
                    LexView { pos: e, mode: LexMode::Normal, ..l },
                )
            }
        },
        LexMode::Shell => {
            let (e, d) = shell_scan(s, p, l.shell_depth);
            let l2 = LexView { pos: e, mode: LexMode::Normal, shell_depth: d, ..l };
            if e < s.len() {
                (Some((SyntaxKind::ShellBody, p, e)), l2)
            } else if e == p {
                (None, l2)
            } else {
                (Some((SyntaxKind::Error, p, e)), l2)
            }
        },
        LexMode::PathItem => {
            let ws = run_len(s, p, CharClass::HSpace);
            if ws > 0 {
                (Some((SyntaxKind::Whitespace, p, p + ws)), LexView { pos: p + ws, ..l })
            } else if p >= s.len() {
                (None, LexView { mode: LexMode::Normal, ..l })
            } else if s[p] == ']' || s[p] == '\n' || s[p] == '\r' || s[p] == ',' {
                (Some((normal_token(s, p).0, p, p + normal_token(s, p).1)), LexView { pos: p + normal_token(s, p).1, mode: LexMode::Normal, ..l })
            } else {
                let e = trim_end(s, p, p + run_len(s, p, CharClass::PathItemBody));
                (Some((SyntaxKind::PathValue, p, e)), LexView { pos: e, mode: LexMode::Normal, ..l })
            }
        },
    }
}

/// A token read in normal mode at `l.pos`, before the end of `s`.
pub open spec fn normal_step(s: Seq<char>, l: LexView) -> (Option<(SyntaxKind, int, int)>, LexView) {
    let p = l.pos;
    let (k, n) = normal_token(s, p);
    let paren: int = if s[p] == '(' {
        l.paren_depth as int + 1
    } else if s[p] == ')' {
        if l.paren_depth == 0 { 0int } else { l.paren_depth as int - 1 }
    } else {
        l.paren_depth as int
    };
    let mode = if s[p] == '=' && l.paren_depth > 0 && !spec_next_non_ws_is_bracket(s, p + 1) {
        LexMode::AttrValue
    } else {
        l.mode
    };
    (Some((k, p, p + n)), LexView { pos: p + n, mode, paren_depth: paren as nat, ..l })
}

/// What [`Lexer::measure`] is of a lexer over `s` standing at `l`.
pub open spec fn lex_measure(s: Seq<char>, l: LexView) -> nat {
    (8 * (s.len() - l.pos) + mode_weight(l.mode)) as nat
}

/// The token spans as plain values.
pub open spec fn span_view(r: Option<(SyntaxKind, usize, usize)>) -> Option<(SyntaxKind, int, int)> {
    match r {
        Some((k, st, en)) => Some((k, st as int, en as int)),
        None => None,
    }
}

/// A lexer over a character sequence, driven token by token. Positions and
/// spans count characters (Unicode scalar values), not UTF-8 bytes.
pub struct Lexer {
    src: Vec<char>,
    pos: usize,
    mode: LexMode,
    /// Brace nesting depth when in `Shell` mode.
    shell_depth: usize,
    /// Nesting depth of `(…)` blocks.
    paren_depth: usize,
}

impl Lexer {
    pub closed spec fn source(&self) -> Seq<char> {
        self.src@
    }

    pub closed spec fn position(&self) -> int {
        self.pos as int
    }

    pub closed spec fn lex_mode(&self) -> LexMode {
        self.mode
    }

    pub closed spec fn parens(&self) -> nat {
        self.paren_depth as nat
    }

    pub closed spec fn shell_braces(&self) -> nat {
        self.shell_depth as nat
    }

    pub closed spec fn wf(&self) -> bool {
        &&& self.pos <= self.src@.len()
        &&& self.paren_depth <= self.pos
        &&& self.shell_depth <= self.pos
    }

    pub proof fn lemma_wf(&self)
        requires
            self.wf(),
        ensures
            0 <= self.position() <= self.source().len(),
    {
    }

    pub open spec fn lex_view(&self) -> LexView {
        LexView { pos: self.position(), mode: self.lex_mode(), shell_depth: self.shell_braces(), paren_depth: self.parens() }
    }

    /// Decreases with every token read.
    pub open spec fn measure(&self) -> nat {
        (8 * (self.source().len() - self.position()) + mode_weight(self.lex_mode())) as nat
    }

    fn new(src: Vec<char>) -> (l: Self)
        ensures
            l.wf(),
            l.source() == src@,
            l.position() == 0,
            l.lex_mode() == LexMode::Normal,
            l.parens() == 0,
            l.shell_braces() == 0,
    {
        Lexer { src, pos: 0, mode: LexMode::Normal, shell_depth: 0, paren_depth: 0 }
    }

    fn peek(&self) -> (r: Option<char>)
        requires
            self.wf(),
        ensures
            self.pos < self.src@.len() ==> r == Some(self.src@[self.pos as int]),
            self.pos >= self.src@.len() ==> r is None,
    {
        if self.pos < self.src.len() {
            Some(self.src[self.pos])
        } else {
            None
        }
    }

    fn peek2(&self) -> (r: Option<char>)
        requires
            self.wf(),
        ensures
            self.pos + 1 < self.src@.len() ==> r == Some(self.src@[self.pos + 1]),
            self.pos + 1 >= self.src@.len() ==> r is None,
    {
        if self.pos < self.src.len() && self.pos + 1 < self.src.len() {
            Some(self.src[self.pos + 1])
        } else {
            None
        }
    }

    /// Consume `n` characters, returning the span they cover.
    fn advance(&mut self, n: usize) -> (r: (usize, usize))
        requires
            old(self).wf(),
            old(self).pos + n <= old(self).src@.len(),
        ensures
            final(self).src@ == old(self).src@,
            final(self).pos == old(self).pos + n,
            final(self).mode == old(self).mode,
            final(self).paren_depth == old(self).paren_depth,
            final(self).shell_depth == old(self).shell_depth,
            r == (old(self).pos, final(self).pos),
    {
        let start = self.pos;
        let _len = self.src.len();
        self.pos = self.pos + n;
        (start, self.pos)
    }

    /// Consume the run of `class` characters at the current position.
    fn take_while(&mut self, class: CharClass) -> (r: (usize, usize))
        requires
            old(self).wf(),
        ensures
            final(self).src@ == old(self).src@,
            final(self).pos == old(self).pos + run_len(old(self).src@, old(self).pos as int, class),
            final(self).mode == old(self).mode,
            final(self).paren_depth == old(self).paren_depth,
            final(self).shell_depth == old(self).shell_depth,
            r == (old(self).pos, final(self).pos),
    {
        let start = self.pos;
        let ghost s = self.src@;
        while self.pos < self.src.len() && self.in_class_at(class)
            invariant
                self.src@ == s,
                start <= self.pos <= s.len(),
                self.mode == old(self).mode,
                self.paren_depth == old(self).paren_depth,
                self.shell_depth == old(self).shell_depth,
                start == old(self).pos,
                (self.pos - start) + run_len(s, self.pos as int, class) == run_len(s, start as int, class),
            decreases s.len() - self.pos,
        {
            self.pos = self.pos + 1;
        }
        (start, self.pos)
    }

    fn in_class_at(&self, class: CharClass) -> (r: bool)
        requires
            self.pos < self.src@.len(),
        ensures
            r == in_class(class, self.src@[self.pos as int]),
    {
        let c = self.src[self.pos];
        match class {
            CharClass::HSpace => c == ' ' || c == '\t',
            CharClass::NotEol => c != '\n' && c != '\r',
            CharClass::IdentContinue => is_ident_continue(c),
            CharClass::AttrValueBody => c != ',' && c != ')' && c != '\n' && c != '\r',
            CharClass::PathItemBody => c != ',' && c != ']' && c != '\n' && c != '\r',
        }
    }

    /// Peek past whitespace to check whether the next non-whitespace character is `[`.
    fn next_non_ws_is_bracket(&self) -> (r: bool)
        requires
            self.wf(),
        ensures
            r == spec_next_non_ws_is_bracket(self.src@, self.pos as int),
    {
        let ghost s = self.src@;
        let mut i = self.pos;
        while i < self.src.len() && (self.src[i] == ' ' || self.src[i] == '\t')
            invariant
                self.pos <= i <= s.len(),
                s == self.src@,
                (i - self.pos) + run_len(s, i as int, CharClass::HSpace) == run_len(s, self.pos as int, CharClass::HSpace),
            decreases s.len() - i,
        {
            i = i + 1;
        }
        i < self.src.len() && self.src[i] == '['
    }

    fn next_normal(&mut self) -> (r: Option<(SyntaxKind, usize, usize)>)
        requires
            old(self).wf(),
        ensures
            final(self).wf(),
            final(self).src@ == old(self).src@,
            final(self).shell_depth == old(self).shell_depth,
            old(self).pos == old(self).src@.len() ==> r is None && *final(self) == *old(self),
            old(self).pos < old(self).src@.len() ==> ({
                let s = old(self).src@;
                let p = old(self).pos as int;
                let (k, n) = normal_token(s, p);
                &&& r == Some((k, old(self).pos, final(self).pos))
                &&& final(self).pos == p + n
                &&& n >= 1
                &&& final(self).paren_depth == (if s[p] == '(' {
                    old(self).paren_depth + 1
                } else if s[p] == ')' {
                    if old(self).paren_depth == 0 { 0 } else { old(self).paren_depth - 1 }
                } else {
                    old(self).paren_depth as int
                })
                &&& final(self).mode == (if s[p] == '=' && old(self).paren_depth > 0
                    && !spec_next_non_ws_is_bracket(s, p + 1) {
                    LexMode::AttrValue
                } else {
                    old(self).mode
                })
            }),
    {
        let ghost s = self.src@;
        let b = match self.peek() {
            Some(b) => b,
            None => return None,
        };
        proof {
            lemma_run_len_bounds(s, self.pos as int, CharClass::HSpace);
            lemma_run_len_bounds(s, self.pos as int, CharClass::NotEol);
            lemma_run_len_bounds(s, self.pos as int, CharClass::IdentContinue);
            lemma_normal_token_len(s, self.pos as int);
        }
        if b == ' ' || b == '\t' {
            let (st, en) = self.take_while(CharClass::HSpace);
            return Some((SyntaxKind::Whitespace, st, en));
        }
        if b == '\n' {
            let (st, en) = self.advance(1);
            return Some((SyntaxKind::Newline, st, en));
        }
        if b == '\r' {
            if self.peek2() == Some('\n') {
                let (st, en) = self.advance(2);
                return Some((SyntaxKind::Newline, st, en));
            }
            let (st, en) = self.advance(1);
            return Some((SyntaxKind::Newline, st, en));
        }
        if b == '#' {
            let (st, en) = self.take_while(CharClass::NotEol);
            return Some((SyntaxKind::LineComment, st, en));
        }
        if b == '{' {
            let (st, en) = self.advance(1);
            return Some((SyntaxKind::LBrace, st, en));
        }
        if b == '}' {
            let (st, en) = self.advance(1);
            return Some((SyntaxKind::RBrace, st, en));
        }
        if b == '[' {
            let (st, en) = self.advance(1);
            return Some((SyntaxKind::LBracket, st, en));
        }
        if b == ']' {
            let (st, en) = self.advance(1);
            return Some((SyntaxKind::RBracket, st, en));
        }
        if b == '(' {
            let (st, en) = self.advance(1);
            self.paren_depth = self.paren_depth + 1;
            return Some((SyntaxKind::LParen, st, en));
        }
        if b == ')' {
            if self.paren_depth > 0 {
                self.paren_depth = self.paren_depth - 1;
            }
            let (st, en) = self.advance(1);
            return Some((SyntaxKind::RParen, st, en));
        }
        if b == '=' {
            let (st, en) = self.advance(1);
            if self.paren_depth > 0 && !self.next_non_ws_is_bracket() {
                self.mode = LexMode::AttrValue;
            }
            return Some((SyntaxKind::Eq, st, en));
        }
        if b == ',' {
            let (st, en) = self.advance(1);
            return Some((SyntaxKind::Comma, st, en));
        }
        if b == '/' {
            let (st, en) = self.advance(1);
            return Some((SyntaxKind::Slash, st, en));
        }
        if b == '.' {
            let (st, en) = self.advance(1);
            return Some((SyntaxKind::Dot, st, en));
        }
        if b == '-' && self.peek2() == Some('>') {
            let (st, en) = self.advance(2);
            return Some((SyntaxKind::Arrow, st, en));
        }
        if is_ident_start(b) {
            let (st, en) = self.take_while(CharClass::IdentContinue);
            let kind = match keyword_in(self.src.as_slice(), st, en) {
                Some(k) => k,
                None => SyntaxKind::Ident,
            };
            return Some((kind, st, en));
        }
        let (st, en) = self.advance(1);
        Some((SyntaxKind::Error, st, en))
    }

    fn next_attr_value(&mut self) -> (r: (SyntaxKind, usize, usize))
        requires
            old(self).wf(),
            old(self).mode == LexMode::AttrValue,
        ensures
            final(self).wf(),
            final(self).src@ == old(self).src@,
            final(self).shell_depth == old(self).shell_depth,
            final(self).paren_depth == old(self).paren_depth,
            ({
                let s = old(self).src@;
                let p = old(self).pos as int;
                let ws = run_len(s, p, CharClass::HSpace);
                let raw_end = p + run_len(s, p, CharClass::AttrValueBody);
                let e = trim_end(s, p, raw_end);
                if ws > 0 {
                    &&& r == (SyntaxKind::Whitespace, old(self).pos, final(self).pos)
                    &&& final(self).pos == p + ws
                    &&& final(self).mode == LexMode::AttrValue
                } else {
                    &&& r == (if e == p { SyntaxKind::Error } else { SyntaxKind::BareValue },
                        old(self).pos, final(self).pos)
                    &&& final(self).pos == e
                    &&& final(self).mode == LexMode::Normal
                }
            }),
    {
        let ghost s = self.src@;
        let start = self.pos;
        proof {
            lemma_run_len_bounds(s, start as int, CharClass::HSpace);
            lemma_run_len_bounds(s, start as int, CharClass::AttrValueBody);
        }
        let (_, value_start) = self.take_while(CharClass::HSpace);
        if value_start > start {
            return (SyntaxKind::Whitespace, start, value_start);
        }
        let (_, raw_end) = self.take_while(CharClass::AttrValueBody);
        proof {
            lemma_trim_end_bounds(s, start as int, raw_end as int);
        }
        while self.pos > value_start && (self.src[self.pos - 1] == ' ' || self.src[self.pos - 1] == '\t')
            invariant
                self.src@ == s,
                value_start <= self.pos <= raw_end <= s.len(),
                value_start == start,
                start == old(self).pos,
                self.paren_depth == old(self).paren_depth,
                self.shell_depth == old(self).shell_depth,
                trim_end(s, start as int, self.pos as int) == trim_end(s, start as int, raw_end as int),
            decreases self.pos,
        {
            self.pos = self.pos - 1;
        }
        self.mode = LexMode::Normal;
        if self.pos == value_start {
            (SyntaxKind::Error, start, self.pos)
        } else {
            (SyntaxKind::BareValue, start, self.pos)
        }
    }

    fn next_shell(&mut self) -> (r: Option<(SyntaxKind, usize, usize)>)
        requires
            old(self).wf(),
        ensures
            final(self).wf(),
            final(self).src@ == old(self).src@,
            final(self).paren_depth == old(self).paren_depth,
            final(self).mode == LexMode::Normal,
            ({
                let s = old(self).src@;
                let p = old(self).pos as int;
                let (e, d) = shell_scan(s, p, old(self).shell_depth as nat);
                &&& final(self).pos == e
                &&& final(self).shell_depth == d
                &&& if e < s.len() {
                    r == Some((SyntaxKind::ShellBody, old(self).pos, final(self).pos))
                } else if e == p {
                    r is None
                } else {
                    r == Some((SyntaxKind::Error, old(self).pos, final(self).pos))
                }
            }),
    {
        let ghost s = self.src@;
        let ghost d0 = self.shell_depth as nat;
        let start = self.pos;
        let len = self.src.len();
        proof {
            lemma_shell_scan(s, start as int, d0);
        }
        while self.pos < len
            invariant
                self.src@ == s,
                start <= self.pos <= s.len(),
                start == old(self).pos,
                s == old(self).src@,
                d0 == old(self).shell_depth,
                self.paren_depth == old(self).paren_depth,
                self.paren_depth <= self.pos,
                self.shell_depth <= self.pos,
                len == s.len(),
                shell_scan(s, self.pos as int, self.shell_depth as nat) == shell_scan(s, start as int, d0),
            decreases s.len() - self.pos,
        {
            let c = self.src[self.pos];
            {
                {
                    if c == '{' {
                        self.shell_depth = self.shell_depth + 1;
                        self.pos = self.pos + 1;
                    } else if c == '}' {
                        if self.shell_depth == 0 {
                            self.mode = LexMode::Normal;
                            return Some((SyntaxKind::ShellBody, start, self.pos));
                        }
                        self.shell_depth = self.shell_depth - 1;
                        self.pos = self.pos + 1;
                    } else {
                        self.pos = self.pos + 1;
                    }
                }
            }
        }
        self.mode = LexMode::Normal;
        if self.pos == start {
            None
        } else {
            Some((SyntaxKind::Error, start, self.pos))
        }
    }

    fn next_path_item(&mut self) -> (r: Option<(SyntaxKind, usize, usize)>)
        requires
            old(self).wf(),
            old(self).mode == LexMode::PathItem,
        ensures
            final(self).wf(),
            final(self).src@ == old(self).src@,
            final(self).shell_depth == old(self).shell_depth,
            ({
                let s = old(self).src@;
                let p = old(self).pos as int;
                let ws = run_len(s, p, CharClass::HSpace);
                let raw_end = p + run_len(s, p, CharClass::PathItemBody);
                if ws > 0 {
                    &&& r == Some((SyntaxKind::Whitespace, old(self).pos, final(self).pos))
                    &&& final(self).pos == p + ws
                    &&& final(self).mode == LexMode::PathItem
                    &&& final(self).paren_depth == old(self).paren_depth
                } else if p == s.len() {
                    r is None && final(self).pos == p && final(self).mode == LexMode::Normal
                        && final(self).paren_depth == old(self).paren_depth
                } else if s[p] == ']' || s[p] == '\n' || s[p] == '\r' || s[p] == ',' {
                    &&& r == Some((normal_token(s, p).0, old(self).pos, final(self).pos))
                    &&& final(self).pos == p + normal_token(s, p).1
                    &&& final(self).mode == LexMode::Normal
                    &&& final(self).paren_depth == old(self).paren_depth
                } else {
                    &&& r == Some((SyntaxKind::PathValue, old(self).pos, final(self).pos))
                    &&& final(self).pos == trim_end(s, p, raw_end)
                    &&& final(self).pos > p
                    &&& final(self).mode == LexMode::Normal
                    &&& final(self).paren_depth == old(self).paren_depth
                }
            }),
    {
        let ghost s = self.src@;
        let start = self.pos;
        proof {
            lemma_run_len_bounds(s, start as int, CharClass::HSpace);
            lemma_run_len_bounds(s, start as int, CharClass::PathItemBody);
            if start < s.len() {
                lemma_run_len_bounds(s, start + 1, CharClass::HSpace);
                lemma_run_len_bounds(s, start + 1, CharClass::PathItemBody);
            }
        }
        let (_, after_ws) = self.take_while(CharClass::HSpace);
        if after_ws > start {
            return Some((SyntaxKind::Whitespace, start, after_ws));
        }
        match self.peek() {
            None => {
                self.mode = LexMode::Normal;
                return self.next_normal();
            },
            Some(c) => {
                if c == ']' || c == '\n' || c == '\r' {
                    self.mode = LexMode::Normal;
                    return self.next_normal();
                }
            },
        }
        let value_start = self.pos;
        let (_, raw_end) = self.take_while(CharClass::PathItemBody);
        if raw_end == value_start {
            // Only a `,` stops a value before it starts: lex it normally.
            self.mode = LexMode::Normal;
            return self.next_normal();
        }
        proof {
            lemma_trim_end_bounds(s, start as int, raw_end as int);
            assert(in_class(CharClass::PathItemBody, s[start as int]));
            lemma_run_len_bounds(s, start + 1, CharClass::PathItemBody);
            assert(!is_hspace(s[start as int]));
            assert(raw_end > start);
            assert(trim_end(s, start as int, raw_end as int) > start) by {
                lemma_trim_end_nonempty(s, start as int, raw_end as int);
            }
        }
        while self.pos > value_start && (self.src[self.pos - 1] == ' ' || self.src[self.pos - 1] == '\t')
            invariant
                self.src@ == s,
                value_start <= self.pos <= raw_end <= s.len(),
                value_start == start,
                start == old(self).pos,
                self.paren_depth == old(self).paren_depth,
                self.shell_depth == old(self).shell_depth,
                trim_end(s, start as int, self.pos as int) == trim_end(s, start as int, raw_end as int),
            decreases self.pos,
        {
            self.pos = self.pos - 1;
        }
        self.mode = LexMode::Normal;
        Some((SyntaxKind::PathValue, value_start, self.pos))
    }

    /// The next token, as its kind and the span of the source it covers.
    fn next_token_span(&mut self) -> (r: Option<(SyntaxKind, usize, usize)>)
        requires
            old(self).wf(),
        ensures
            final(self).wf(),
            final(self).source() == old(self).source(),
            r is None ==> final(self).position() == final(self).source().len()
                && final(self).lex_mode() == LexMode::Normal
                && final(self).position() == old(self).position(),
            r matches Some((k, st, en)) ==> {
                &&& st == old(self).position()
                &&& en == final(self).position()
                &&& k != SyntaxKind::Eof
                &&& st <= en
                &&& final(self).measure() < old(self).measure()
                &&& (k == SyntaxKind::LBrace || k == SyntaxKind::LBracket || k == SyntaxKind::Comma
                    ==> final(self).lex_mode() == LexMode::Normal && final(self).measure() + 8 <= old(self).measure())
            },
            (span_view(r), final(self).lex_view()) == lex_step(old(self).source(), old(self).lex_view()),
    {
        let ghost s = self.src@;
        proof {
            lemma_run_len_bounds(s, self.pos as int, CharClass::HSpace);
            lemma_run_len_bounds(s, self.pos as int, CharClass::AttrValueBody);
            lemma_run_len_bounds(s, self.pos as int, CharClass::PathItemBody);
            lemma_shell_scan(s, self.pos as int, self.shell_depth as nat);
            if self.pos < s.len() {
                lemma_normal_token_len(s, self.pos as int);
            }
        }
        match self.mode {
            LexMode::Normal => self.next_normal(),
            LexMode::AttrValue => {
                proof {
                    lemma_trim_end_bounds(s, self.pos as int, self.pos + run_len(s, self.pos as int, CharClass::AttrValueBody));
                }
                Some(self.next_attr_value())
            },
            LexMode::Shell => self.next_shell(),
            LexMode::PathItem => {
                proof {
                    lemma_trim_end_bounds(s, self.pos as int, self.pos + run_len(s, self.pos as int, CharClass::PathItemBody));
                }
                self.next_path_item()
            },
        }
    }
}

proof fn lemma_trim_end_nonempty(s: Seq<char>, lo: int, hi: int)
    requires
        0 <= lo < hi <= s.len(),
        !is_hspace(s[lo]),
    ensures
        trim_end(s, lo, hi) > lo,
    decreases hi - lo,
{
    if hi > lo && is_hspace(s[hi - 1]) {
        lemma_trim_end_nonempty(s, lo, hi - 1);
    }
}

pub proof fn lemma_normal_token_len(s: Seq<char>, p: int)
    requires
        0 <= p < s.len(),
    ensures
        1 <= normal_token(s, p).1 <= s.len() - p,
        normal_token(s, p).0 == SyntaxKind::LBrace ==> s[p] == '{',
        normal_token(s, p).0 == SyntaxKind::LBracket ==> s[p] == '[',
        normal_token(s, p).0 == SyntaxKind::Comma ==> s[p] == ',',
{
    lemma_run_len_bounds(s, p, CharClass::HSpace);
    lemma_run_len_bounds(s, p, CharClass::NotEol);
    lemma_run_len_bounds(s, p, CharClass::IdentContinue);
    lemma_run_len_bounds(s, p + 1, CharClass::HSpace);
    lemma_run_len_bounds(s, p + 1, CharClass::NotEol);
    lemma_run_len_bounds(s, p + 1, CharClass::IdentContinue);
    let c = s[p];
    if spec_is_ident_start(c) && !is_hspace(c) {
        assert(in_class(CharClass::IdentContinue, c));
        let n = run_len(s, p, CharClass::IdentContinue);
        let w = s.subrange(p, p + n);
        if spec_keyword_kind(w) == Some(SyntaxKind::LBrace) || spec_keyword_kind(w) == Some(SyntaxKind::LBracket)
            || spec_keyword_kind(w) == Some(SyntaxKind::Comma) {
            assert(false);
        }
    }
}

fn is_ident_start(b: char) -> (r: bool)
    ensures
        r == spec_is_ident_start(b),
{
    ('a' <= b && b <= 'z') || ('A' <= b && b <= 'Z') || b == '_'
}

fn is_ident_continue(b: char) -> (r: bool)
    ensures
        r == spec_is_ident_continue(b),
{
    ('a' <= b && b <= 'z') || ('A' <= b && b <= 'Z') || ('0' <= b && b <= '9') || b == '_' || b == '-'
}

/// Token-by-token lexer handle used by the parser.
///
/// The parser drives lexing lazily: once it has emitted the `{` opening a
/// shell body it calls [`LexerHandle::enter_shell_now`], so that the next
/// token is the raw `ShellBody`.
pub struct LexerHandle {
    lexer: Lexer,
}

impl LexerHandle {
    pub closed spec fn state(&self) -> Lexer {
        self.lexer
    }

    pub closed spec fn wf(&self) -> bool {
        self.lexer.wf()
    }

    /// A handle on `src`, at its start, in normal mode.
    pub fn new(src: &str) -> (h: Self)
        ensures
            h.wf(),
            h.state().source() == src@,
            h.state().position() == 0,
            h.state().lex_mode() == LexMode::Normal,
            h.state().parens() == 0,
            h.state().shell_braces() == 0,
    {
        LexerHandle { lexer: Lexer::new(chars_of(src)) }
    }

    pub proof fn lemma_wf(&self)
        requires
            self.wf(),
        ensures
            0 <= self.state().position() <= self.state().source().len(),
    {
        self.lexer.lemma_wf();
    }

    /// Immediately enter shell mode, at brace depth zero.
    pub fn enter_shell_now(&mut self)
        requires
            old(self).wf(),
        ensures
            final(self).wf(),
            final(self).state().source() == old(self).state().source(),
            final(self).state().position() == old(self).state().position(),
            final(self).state().lex_mode() == LexMode::Shell,
            final(self).state().parens() == old(self).state().parens(),
            final(self).state().shell_braces() == 0,
    {
        self.lexer.mode = LexMode::Shell;
        self.lexer.shell_depth = 0;
    }

    /// Immediately enter path-item mode.
    pub fn enter_path_item_now(&mut self)
        requires
            old(self).wf(),
        ensures
            final(self).wf(),
            final(self).state().source() == old(self).state().source(),
            final(self).state().position() == old(self).state().position(),
            final(self).state().lex_mode() == LexMode::PathItem,
            final(self).state().parens() == old(self).state().parens(),
            final(self).state().shell_braces() == old(self).state().shell_braces(),
    {
        self.lexer.mode = LexMode::PathItem;
    }

    /// The next token as its kind and the span `start..end` of the source it
    /// covers; `None` at the end of the input.
    pub fn next_token_span(&mut self) -> (r: Option<(SyntaxKind, usize, usize)>)
        requires
            old(self).wf(),
        ensures
            final(self).wf(),
            final(self).state().source() == old(self).state().source(),
            r is None ==> final(self).state().position() == final(self).state().source().len()
                && final(self).state().lex_mode() == LexMode::Normal
                && final(self).state().position() == old(self).state().position(),
            r matches Some((k, st, en)) ==> {
                &&& st == old(self).state().position()
                &&& en == final(self).state().position()
                &&& k != SyntaxKind::Eof
                &&& st <= en
                &&& final(self).state().measure() < old(self).state().measure()
                &&& (k == SyntaxKind::LBrace || k == SyntaxKind::LBracket || k == SyntaxKind::Comma
                    ==> final(self).state().lex_mode() == LexMode::Normal
                    && final(self).state().measure() + 8 <= old(self).state().measure())
            },
            (span_view(r), final(self).state().lex_view()) == lex_step(
                old(self).state().source(),
                old(self).state().lex_view(),
            ),
    {
        self.lexer.next_token_span()
    }

    /// The next token as its kind and text; `None` at the end of the input.
    pub fn next_token(&mut self) -> (r: Option<(SyntaxKind, String)>)
        requires
            old(self).wf(),
        ensures
            final(self).wf(),
            final(self).state().source() == old(self).state().source(),
            r is None ==> final(self).state().position() == final(self).state().source().len(),
            r matches Some((k, t)) ==> {
                &&& t@ == old(self).state().source().subrange(
                    old(self).state().position(),
                    final(self).state().position(),
                )
                &&& final(self).state().measure() < old(self).state().measure()
            },
            final(self).state().lex_view() == lex_step(old(self).state().source(), old(self).state().lex_view()).1,
            match r {
                None => lex_step(old(self).state().source(), old(self).state().lex_view()).0 is None,
                Some((k, t)) => lex_step(old(self).state().source(), old(self).state().lex_view()).0
                    matches Some((k2, st, en)) && k2 == k
                    && t@ == old(self).state().source().subrange(st, en),
            },
    {
        match self.lexer.next_token_span() {
            None => None,
            Some((k, st, en)) => Some((k, substring(&self.lexer.src, st, en))),
        }
    }
}

} // verus!

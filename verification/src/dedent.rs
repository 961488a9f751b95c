use vstd::prelude::*;

use crate::paths::{split_chars, split_on};
use crate::text::{chars_of, string_from_chars};

verus! {

// ─── whitespace ──────────────────────────────────────────────────────────────

/// Unicode `White_Space`, the characters `char::is_whitespace` accepts.
pub open spec fn spec_is_ws(c: char) -> bool {
    ||| c == '\t' || c == '\n' || c == '\u{0B}' || c == '\u{0C}' || c == '\r' || c == ' '
    ||| c == '\u{85}' || c == '\u{A0}' || c == '\u{1680}'
    ||| ('\u{2000}' <= c && c <= '\u{200A}')
    ||| c == '\u{2028}' || c == '\u{2029}' || c == '\u{202F}' || c == '\u{205F}' || c == '\u{3000}'
}

/// `true` if `c` is Unicode whitespace.
pub fn is_ws(c: char) -> (r: bool)
    ensures
        r == spec_is_ws(c),
{
    c == '\t' || c == '\n' || c == '\u{0B}' || c == '\u{0C}' || c == '\r' || c == ' '
        || c == '\u{85}' || c == '\u{A0}' || c == '\u{1680}'
        || ('\u{2000}' <= c && c <= '\u{200A}')
        || c == '\u{2028}' || c == '\u{2029}' || c == '\u{202F}' || c == '\u{205F}' || c == '\u{3000}'
}

/// The number of whitespace characters `s` starts with.
pub open spec fn leading_ws(s: Seq<char>) -> nat
    decreases s.len(),
{
    if s.len() > 0 && spec_is_ws(s[0]) {
        1 + leading_ws(s.drop_first())
    } else {
        0
    }
}

/// The number of whitespace characters `s` ends with.
pub open spec fn trailing_ws(s: Seq<char>) -> nat
    decreases s.len(),
{
    if s.len() > 0 && spec_is_ws(s.last()) {
        1 + trailing_ws(s.drop_last())
    } else {
        0
    }
}

proof fn lemma_leading_ws(s: Seq<char>)
    ensures
        leading_ws(s) <= s.len(),
        forall|i: int| 0 <= i < leading_ws(s) ==> spec_is_ws(#[trigger] s[i]),
        leading_ws(s) < s.len() ==> !spec_is_ws(s[leading_ws(s) as int]),
    decreases s.len(),
{
    if s.len() > 0 && spec_is_ws(s[0]) {
        lemma_leading_ws(s.drop_first());
        assert forall|i: int| 0 <= i < leading_ws(s) implies spec_is_ws(#[trigger] s[i]) by {
            if i > 0 {
                assert(s[i] == s.drop_first()[i - 1]);
            }
        }
        if leading_ws(s) < s.len() {
            assert(s[leading_ws(s) as int] == s.drop_first()[leading_ws(s.drop_first()) as int]);
        }
    }
}

proof fn lemma_leading_ws_from(s: Seq<char>, i: int)
    requires
        0 <= i <= s.len(),
        forall|j: int| 0 <= j < i ==> spec_is_ws(#[trigger] s[j]),
        i < s.len() ==> !spec_is_ws(s[i]),
    ensures
        leading_ws(s) == i,
    decreases i,
{
    if i > 0 {
        assert forall|j: int| 0 <= j < i - 1 implies spec_is_ws(#[trigger] s.drop_first()[j]) by {
            assert(s.drop_first()[j] == s[j + 1]);
        }
        if i - 1 < s.drop_first().len() {
            assert(s.drop_first()[i - 1] == s[i]);
        }
        lemma_leading_ws_from(s.drop_first(), i - 1);
    }
}

proof fn lemma_trailing_ws_from(s: Seq<char>, i: int)
    requires
        0 <= i <= s.len(),
        forall|j: int| s.len() - i <= j < s.len() ==> spec_is_ws(#[trigger] s[j]),
        i < s.len() ==> !spec_is_ws(s[s.len() - i - 1]),
    ensures
        trailing_ws(s) == i,
    decreases i,
{
    if i > 0 {
        assert forall|j: int| s.drop_last().len() - (i - 1) <= j < s.drop_last().len() implies spec_is_ws(#[trigger] s.drop_last()[j]) by {
            assert(s.drop_last()[j] == s[j]);
        }
        if i - 1 < s.drop_last().len() {
            assert(s.drop_last()[s.drop_last().len() - (i - 1) - 1] == s[s.len() - i - 1]);
        }
        lemma_trailing_ws_from(s.drop_last(), i - 1);
    }
}

/// Count of leading whitespace characters.
fn leading_ws_exec(s: &Vec<char>) -> (r: usize)
    ensures
        r == leading_ws(s@),
{
    let mut i: usize = 0;
    while i < s.len() && is_ws(s[i])
        invariant
            0 <= i <= s@.len(),
            forall|j: int| 0 <= j < i ==> spec_is_ws(#[trigger] s@[j]),
        decreases s@.len() - i,
    {
        i = i + 1;
    }
    proof {
        lemma_leading_ws_from(s@, i as int);
    }
    i
}

proof fn lemma_trailing_ws(s: Seq<char>)
    ensures
        trailing_ws(s) <= s.len(),
        forall|i: int| s.len() - trailing_ws(s) <= i < s.len() ==> spec_is_ws(#[trigger] s[i]),
        trailing_ws(s) < s.len() ==> !spec_is_ws(s[s.len() - trailing_ws(s) - 1]),
    decreases s.len(),
{
    if s.len() > 0 && spec_is_ws(s.last()) {
        lemma_trailing_ws(s.drop_last());
        assert forall|i: int| s.len() - trailing_ws(s) <= i < s.len() implies spec_is_ws(#[trigger] s[i]) by {
            if i < s.len() - 1 {
                assert(s[i] == s.drop_last()[i]);
            }
        }
        if trailing_ws(s) < s.len() {
            assert(s[s.len() - trailing_ws(s) - 1] == s.drop_last()[s.drop_last().len() - trailing_ws(s.drop_last()) - 1]);
        }
    }
}

/// Trimming keeps a stretch of `s` from its first non-whitespace character
/// to its last one: only whitespace is cut, at both ends, and what is kept
/// starts and ends with a character that is not whitespace (or is empty,
/// for a blank `s`).
pub proof fn lemma_trim_cuts_only_whitespace(s: Seq<char>)
    ensures
        exists|a: int, b: int| #![trigger s.subrange(a, b)]
            0 <= a <= b <= s.len() && spec_trim(s) == s.subrange(a, b)
                && (forall|i: int| 0 <= i < a ==> spec_is_ws(#[trigger] s[i]))
                && (forall|i: int| b <= i < s.len() ==> spec_is_ws(#[trigger] s[i]))
                && (a < b ==> !spec_is_ws(s[a]) && !spec_is_ws(s[b - 1]))
                && (a == b ==> forall|i: int| 0 <= i < s.len() ==> spec_is_ws(#[trigger] s[i])),
{
    lemma_leading_ws(s);
    let a = leading_ws(s) as int;
    let rest = s.skip(a);
    lemma_trailing_ws(rest);
    let t = trailing_ws(rest) as int;
    let b = s.len() - t;
    assert(spec_trim(s) =~= s.subrange(a, b));
    assert forall|i: int| b <= i < s.len() implies spec_is_ws(#[trigger] s[i]) by {
        assert(s[i] == rest[i - a]);
    }
    if a < b {
        assert(s[b - 1] == rest[rest.len() - t - 1]);
    } else {
        assert forall|i: int| 0 <= i < s.len() implies spec_is_ws(#[trigger] s[i]) by {
            if i >= a {
                assert(s[i] == rest[i - a]);
            }
        }
    }
    assert(s.subrange(a, b) == s.subrange(a, b));
}

/// `s` with the whitespace at both ends removed.
pub open spec fn spec_trim(s: Seq<char>) -> Seq<char> {
    let a = leading_ws(s);
    let rest = s.skip(a as int);
    rest.take(rest.len() - trailing_ws(rest))
}

/// `s` with the whitespace at both ends removed.
pub fn trim_chars(s: &Vec<char>) -> (r: Vec<char>)
    ensures
        r@ == spec_trim(s@),
{
    let a = leading_ws_exec(s);
    proof {
        lemma_leading_ws(s@);
    }
    let mut b: usize = s.len();
    while b > a && is_ws(s[b - 1])
        invariant
            a <= b <= s@.len(),
            a == leading_ws(s@),
            forall|j: int| b <= j < s@.len() ==> spec_is_ws(#[trigger] s@[j]),
        decreases b,
    {
        b = b - 1;
    }
    proof {
        let rest = s@.skip(a as int);
        let t = (s@.len() - b) as int;
        assert forall|j: int| rest.len() - t <= j < rest.len() implies spec_is_ws(#[trigger] rest[j]) by {
            assert(rest[j] == s@[a + j]);
        }
        if t < rest.len() {
            assert(rest[rest.len() - t - 1] == s@[b - 1]);
        }
        lemma_trailing_ws_from(rest, t);
    }
    crate::text::sub_chars(s, a, b)
}

// ─── lines ───────────────────────────────────────────────────────────────────

/// `s` without one trailing carriage return.
pub open spec fn strip_cr(s: Seq<char>) -> Seq<char> {
    if s.len() > 0 && s.last() == '\r' {
        s.drop_last()
    } else {
        s
    }
}

pub open spec fn strip_crs(ps: Seq<Seq<char>>) -> Seq<Seq<char>> {
    ps.map_values(|p: Seq<char>| strip_cr(p))
}

/// The lines of `s` as `str::lines` gives them: split at each `\n`, a `\r`
/// just before it dropped, and no empty line after a final `\n`.
pub open spec fn spec_lines(s: Seq<char>) -> Seq<Seq<char>> {
    let pieces = split_on(s, '\n');
    let body = strip_crs(pieces.drop_last());
    if pieces.last().len() == 0 {
        body
    } else {
        body.push(pieces.last())
    }
}

proof fn lemma_split_nonempty(s: Seq<char>, c: char, p: int)
    requires
        0 <= p <= s.len(),
    ensures
        crate::paths::split_from(s, c, p).len() >= 1,
    decreases s.len() - p,
{
    let i = crate::text::find_char_from(s, c, p);
    if p <= i < s.len() {
        lemma_split_nonempty(s, c, i + 1);
    }
}

fn strip_cr_exec(v: &Vec<char>) -> (r: Vec<char>)
    ensures
        r@ == strip_cr(v@),
{
    if v.len() > 0 && v[v.len() - 1] == '\r' {
        crate::text::sub_chars(v, 0, v.len() - 1)
    } else {
        crate::paths::clone_chars(v)
    }
}

/// The lines of `s`.
pub fn lines_of(s: &Vec<char>) -> (r: Vec<Vec<char>>)
    ensures
        r@.map_values(|v: Vec<char>| v@) == spec_lines(s@),
{
    let pieces = split_chars(s, '\n');
    let ghost pv = pieces@.map_values(|v: Vec<char>| v@);
    proof {
        lemma_split_nonempty(s@, '\n', 0);
    }
    let n = pieces.len();
    let mut r: Vec<Vec<char>> = Vec::new();
    let mut i: usize = 0;
    while i + 1 < n
        invariant
            n == pieces@.len(),
            n >= 1,
            0 <= i < n,
            pv == pieces@.map_values(|v: Vec<char>| v@),
            r@.map_values(|v: Vec<char>| v@) == strip_crs(pv.drop_last().take(i as int)),
        decreases n - i,
    {
        let line = strip_cr_exec(&pieces[i]);
        let ghost before = r@.map_values(|v: Vec<char>| v@);
        r.push(line);
        proof {
            assert(pv.drop_last().take(i + 1) =~= pv.drop_last().take(i as int).push(pv[i as int]));
            assert(strip_crs(pv.drop_last().take(i + 1)) =~= strip_crs(pv.drop_last().take(i as int)).push(strip_cr(pv[i as int])));
            assert(r@.map_values(|v: Vec<char>| v@) =~= strip_crs(pv.drop_last().take(i + 1)));
        }
        i = i + 1;
    }
    assert(pv.drop_last().take(i as int) =~= pv.drop_last());
    if pieces[n - 1].len() > 0 {
        let last = crate::paths::clone_chars(&pieces[n - 1]);
        let ghost before = r@.map_values(|v: Vec<char>| v@);
        r.push(last);
        assert(r@.map_values(|v: Vec<char>| v@) =~= before.push(pv.last()));
    }
    r
}

// ─── dedent ──────────────────────────────────────────────────────────────────

/// `true` if `s` holds nothing but whitespace.
pub open spec fn is_blank(s: Seq<char>) -> bool {
    leading_ws(s) == s.len()
}

/// The smallest indentation among the non-blank lines of `ls[..k]`, if any.
pub open spec fn min_indent(ls: Seq<Seq<char>>, k: int) -> Option<nat>
    decreases k,
{
    if k <= 0 || k > ls.len() {
        None
    } else {
        let rest = min_indent(ls, k - 1);
        if is_blank(ls[k - 1]) {
            rest
        } else {
            match rest {
                Some(m) => Some(if leading_ws(ls[k - 1]) < m { leading_ws(ls[k - 1]) } else { m }),
                None => Some(leading_ws(ls[k - 1])),
            }
        }
    }
}

/// A line with `m` characters of indentation removed; one shorter than that
/// (it can only be blank) loses its whitespace.
pub open spec fn unindent(l: Seq<char>, m: nat) -> Seq<char> {
    if l.len() >= m {
        l.skip(m as int)
    } else {
        l.skip(leading_ws(l) as int)
    }
}

/// The lines joined with `\n` between them.
pub open spec fn join_lines(ls: Seq<Seq<char>>) -> Seq<char>
    decreases ls.len(),
{
    if ls.len() == 0 {
        Seq::empty()
    } else if ls.len() == 1 {
        ls[0]
    } else {
        join_lines(ls.drop_last()) + seq!['\n'] + ls.last()
    }
}

/// Among the first `k` lines, the indentation `min_indent` picks is the
/// smallest one of a non-blank line: no non-blank line is indented less, and
/// one is indented exactly that much. There is none when every line is
/// blank.
pub proof fn lemma_min_indent_least(ls: Seq<Seq<char>>, k: int)
    requires
        0 <= k <= ls.len(),
    ensures
        min_indent(ls, k) is None <==> forall|i: int| 0 <= i < k ==> is_blank(#[trigger] ls[i]),
        min_indent(ls, k) matches Some(m) ==> {
            &&& forall|i: int| 0 <= i < k && !is_blank(#[trigger] ls[i]) ==> m <= leading_ws(ls[i])
            &&& exists|i: int| 0 <= i < k && !is_blank(#[trigger] ls[i]) && leading_ws(ls[i]) == m
        },
    decreases k,
{
    if k > 0 {
        lemma_min_indent_least(ls, k - 1);
        let l = ls[k - 1];
        if !is_blank(l) {
            match min_indent(ls, k - 1) {
                Some(m0) => {
                    let i0 = choose|i: int| 0 <= i < k - 1 && !is_blank(#[trigger] ls[i]) && leading_ws(ls[i]) == m0;
                    if leading_ws(l) < m0 {
                        assert(!is_blank(ls[k - 1]) && leading_ws(ls[k - 1]) == leading_ws(l));
                    } else {
                        assert(!is_blank(ls[i0]) && leading_ws(ls[i0]) == m0);
                    }
                },
                None => {
                    assert(!is_blank(ls[k - 1]));
                },
            }
        }
    }
}

/// `m` is the smallest indentation of a non-blank line of `ls`: no
/// non-blank line is indented less, and one, if there is any, is indented
/// exactly `m`.
pub open spec fn least_indent(ls: Seq<Seq<char>>, m: nat) -> bool {
    &&& forall|i: int| 0 <= i < ls.len() && !is_blank(#[trigger] ls[i]) ==> m <= leading_ws(ls[i])
    &&& (exists|i: int| 0 <= i < ls.len() && !is_blank(#[trigger] ls[i])) ==> exists|i: int|
        0 <= i < ls.len() && !is_blank(#[trigger] ls[i]) && leading_ws(ls[i]) == m
}

/// Dedenting a body removes from each of its lines only leading whitespace:
/// the same amount `m` from every line long enough, and all of it from a
/// shorter (blank) one. No non-blank line is indented less than `m`, and
/// some non-blank line is indented exactly `m`, so each keeps every
/// character after its indentation and one keeps all of its text. The
/// joined lines are then trimmed.
pub proof fn lemma_dedent_removes_common_indent(s: Seq<char>)
    ensures
        exists|m: nat| #[trigger] least_indent(spec_lines(s), m) && spec_dedent(s) == spec_trim(join_lines(Seq::new(
            spec_lines(s).len(),
            |i: int| if spec_lines(s)[i].len() >= m {
                spec_lines(s)[i].skip(m as int)
            } else {
                spec_lines(s)[i].skip(leading_ws(spec_lines(s)[i]) as int)
            },
        ))),
{
    let ls = spec_lines(s);
    lemma_min_indent_least(ls, ls.len() as int);
    let m: nat = match min_indent(ls, ls.len() as int) {
        Some(x) => x,
        None => 0,
    };
    assert(ls.map_values(|l: Seq<char>| unindent(l, m)) =~= Seq::new(
        ls.len(),
        |i: int| if ls[i].len() >= m { ls[i].skip(m as int) } else { ls[i].skip(leading_ws(ls[i]) as int) },
    ));
    assert(least_indent(ls, m));
}

/// A shell body with the indentation its non-blank lines share removed, and
/// the whitespace around the whole trimmed. Indentation is counted in
/// whitespace characters, not bytes.
pub open spec fn spec_dedent(s: Seq<char>) -> Seq<char> {
    let ls = spec_lines(s);
    let m = match min_indent(ls, ls.len() as int) {
        Some(m) => m,
        None => 0,
    };
    spec_trim(join_lines(ls.map_values(|l: Seq<char>| unindent(l, m))))
}

/// A shell body with the indentation its non-blank lines share removed, and
/// the whitespace around the whole trimmed.
pub fn dedent(s: &str) -> (r: String)
    ensures
        r@ == spec_dedent(s@),
{
    let cs = chars_of(s);
    let ls = lines_of(&cs);
    let ghost lv = ls@.map_values(|v: Vec<char>| v@);
    let mut m: usize = 0;
    let mut found = false;
    let mut k: usize = 0;
    while k < ls.len()
        invariant
            0 <= k <= ls@.len(),
            lv == ls@.map_values(|v: Vec<char>| v@),
            found <==> min_indent(lv, k as int) is Some,
            found ==> min_indent(lv, k as int) == Some(m as nat),
            !found ==> m == 0,
        decreases ls@.len() - k,
    {
        assert(lv[k as int] == ls@[k as int]@);
        let lead = leading_ws_exec(&ls[k]);
        if lead != ls[k].len() {
            if !found || lead < m {
                m = lead;
            }
            found = true;
        }
        k = k + 1;
    }
    assert(found ==> min_indent(lv, lv.len() as int) == Some(m as nat));
    let ghost mm: nat = match min_indent(lv, lv.len() as int) {
        Some(x) => x,
        None => 0,
    };
    assert(mm == m);
    let mut out: Vec<char> = Vec::new();
    let mut j: usize = 0;
    let ghost uv = lv.map_values(|l: Seq<char>| unindent(l, mm));
    while j < ls.len()
        invariant
            0 <= j <= ls@.len(),
            lv == ls@.map_values(|v: Vec<char>| v@),
            uv == lv.map_values(|l: Seq<char>| unindent(l, mm)),
            mm == m,
            out@ == join_lines(uv.take(j as int)),
        decreases ls@.len() - j,
    {
        let line = &ls[j];
        assert(lv[j as int] == line@);
        let from = if line.len() >= m { m } else { leading_ws_exec(line) };
        proof {
            lemma_leading_ws(line@);
        }
        if j > 0 {
            out.push('\n');
        }
        let ghost before = out@;
        let mut q = from;
        while q < line.len()
            invariant
                from <= q <= line@.len(),
                out@ == before + line@.subrange(from as int, q as int),
            decreases line@.len() - q,
        {
            out.push(line[q]);
            q = q + 1;
            assert(out@ =~= before + line@.subrange(from as int, q as int));
        }
        proof {
            assert(uv[j as int] == unindent(lv[j as int], mm));
            assert(line@.subrange(from as int, line@.len() as int) =~= uv[j as int]);
            assert(uv.take(j + 1).drop_last() =~= uv.take(j as int));
            if j == 0 {
                assert(uv.take(1) =~= seq![uv[0]]);
            }
            assert(out@ =~= join_lines(uv.take(j + 1)));
        }
        j = j + 1;
    }
    assert(uv.take(uv.len() as int) =~= uv);
    let t = trim_chars(&out);
    string_from_chars(t.as_slice())
}

} // verus!

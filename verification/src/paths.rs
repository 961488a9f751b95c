use vstd::prelude::*;

use crate::text::{chars_of, find_char_from, lemma_find_char_from, string_from_chars};

verus! {

// ─── splitting ───────────────────────────────────────────────────────────────

/// The pieces of `s[p..]` between occurrences of `c`.
pub open spec fn split_from(s: Seq<char>, c: char, p: int) -> Seq<Seq<char>>
    decreases s.len() - p,
{
    let i = find_char_from(s, c, p);
    if p < 0 || p > s.len() {
        Seq::empty()
    } else if p <= i < s.len() {
        seq![s.subrange(p, i)] + split_from(s, c, i + 1)
    } else {
        seq![s.subrange(p, s.len() as int)]
    }
}

/// The pieces of `s` between occurrences of `c` (always at least one).
pub open spec fn split_on(s: Seq<char>, c: char) -> Seq<Seq<char>> {
    split_from(s, c, 0)
}

/// The pieces of `s` between occurrences of `c`.
pub fn split_chars(s: &Vec<char>, c: char) -> (r: Vec<Vec<char>>)
    ensures
        r@.map_values(|v: Vec<char>| v@) == split_on(s@, c),
{
    let mut r: Vec<Vec<char>> = Vec::new();
    let mut cur: Vec<char> = Vec::new();
    let mut p: usize = 0;
    let mut i: usize = 0;
    while i < s.len()
        invariant
            0 <= p <= i <= s@.len(),
            cur@ == s@.subrange(p as int, i as int),
            forall|k: int| p <= k < i ==> s@[k] != c,
            r@.map_values(|v: Vec<char>| v@) + split_from(s@, c, p as int) == split_on(s@, c),
        decreases s@.len() - i,
    {
        if s[i] == c {
            proof {
                lemma_find_char_from(s@, c, p as int);
                assert(find_char_from(s@, c, p as int) == i) by {
                    lemma_find_at(s@, c, p as int, i as int);
                }
            }
            let ghost old_r = r@.map_values(|v: Vec<char>| v@);
            let piece = cur;
            r.push(piece);
            cur = Vec::new();
            proof {
                assert(r@.map_values(|v: Vec<char>| v@) =~= old_r.push(s@.subrange(p as int, i as int)));
                assert(split_from(s@, c, p as int) =~= seq![s@.subrange(p as int, i as int)] + split_from(s@, c, i + 1));
                assert(r@.map_values(|v: Vec<char>| v@) + split_from(s@, c, i + 1)
                    =~= old_r + split_from(s@, c, p as int));
            }
            p = i + 1;
        } else {
            cur.push(s[i]);
            assert(cur@ =~= s@.subrange(p as int, i + 1));
        }
        i = i + 1;
    }
    proof {
        lemma_find_at(s@, c, p as int, s@.len() as int);
        assert(split_from(s@, c, p as int) =~= seq![s@.subrange(p as int, s@.len() as int)]);
    }
    let ghost old_r = r@.map_values(|v: Vec<char>| v@);
    r.push(cur);
    assert(r@.map_values(|v: Vec<char>| v@) =~= old_r.push(s@.subrange(p as int, s@.len() as int)));
    r
}

/// `find_char_from` stops at the first `c` from `p`: here at `i`.
pub proof fn lemma_find_at(s: Seq<char>, c: char, p: int, i: int)
    requires
        0 <= p <= i <= s.len(),
        forall|k: int| p <= k < i ==> s[k] != c,
        i < s.len() ==> s[i] == c,
    ensures
        find_char_from(s, c, p) == i,
    decreases i - p,
{
    if p < i {
        lemma_find_at(s, c, p + 1, i);
    }
}

// ─── joining ─────────────────────────────────────────────────────────────────

/// The pieces joined with `/` between them.
pub open spec fn join_slash(segs: Seq<Seq<char>>) -> Seq<char>
    decreases segs.len(),
{
    if segs.len() == 0 {
        Seq::empty()
    } else if segs.len() == 1 {
        segs[0]
    } else {
        join_slash(segs.drop_last()) + seq!['/'] + segs.last()
    }
}

// ─── normalizing ─────────────────────────────────────────────────────────────

pub open spec fn dot() -> Seq<char> {
    seq!['.']
}

pub open spec fn dot_dot() -> Seq<char> {
    seq!['.', '.']
}

/// One path component added to the components kept so far: `.` and empty
/// components vanish, and `..` removes the last ordinary component.
pub open spec fn norm_push(out: Seq<Seq<char>>, seg: Seq<char>) -> Seq<Seq<char>> {
    if seg.len() == 0 || seg == dot() {
        out
    } else if seg == dot_dot() && out.len() > 0 && out.last() != dot_dot() {
        out.drop_last()
    } else {
        out.push(seg)
    }
}

/// The components kept from `segs`.
pub open spec fn norm_segs(segs: Seq<Seq<char>>) -> Seq<Seq<char>>
    decreases segs.len(),
{
    if segs.len() == 0 {
        Seq::empty()
    } else {
        norm_push(norm_segs(segs.drop_last()), segs.last())
    }
}

pub open spec fn is_absolute(s: Seq<char>) -> bool {
    s.len() > 0 && s[0] == '/'
}

/// The path with `.` components removed and `..` applied to the
/// component before it where there is one.
pub open spec fn spec_normalize(s: Seq<char>) -> Seq<char> {
    (if is_absolute(s) { seq!['/'] } else { Seq::empty() }) + join_slash(norm_segs(split_on(s, '/')))
}

pub fn seq_eq(a: &Vec<char>, b: &Vec<char>) -> (r: bool)
    ensures
        r == (a@ == b@),
{
    if a.len() != b.len() {
        return false;
    }
    let mut i: usize = 0;
    while i < a.len()
        invariant
            a@.len() == b@.len(),
            0 <= i <= a@.len(),
            forall|j: int| 0 <= j < i ==> a@[j] == b@[j],
        decreases a@.len() - i,
    {
        if a[i] != b[i] {
            return false;
        }
        i = i + 1;
    }
    assert(a@ =~= b@);
    true
}

/// The components of `path` that `normalize` keeps, in order.
pub fn norm_components(cs: &Vec<char>) -> (out: Vec<Vec<char>>)
    ensures
        out@.map_values(|v: Vec<char>| v@) == norm_segs(split_on(cs@, '/')),
{
    let segs = split_chars(cs, '/');
    let ghost sv = segs@.map_values(|v: Vec<char>| v@);
    let mut out: Vec<Vec<char>> = Vec::new();
    let mut k: usize = 0;
    let dotv: Vec<char> = vec!['.'];
    let dot_dotv: Vec<char> = vec!['.', '.'];
    assert(dotv@ =~= dot());
    assert(dot_dotv@ =~= dot_dot());
    while k < segs.len()
        invariant
            0 <= k <= segs@.len(),
            sv == segs@.map_values(|v: Vec<char>| v@),
            sv == split_on(cs@, '/'),
            dotv@ == dot(),
            dot_dotv@ == dot_dot(),
            out@.map_values(|v: Vec<char>| v@) == norm_segs(sv.take(k as int)),
        decreases segs@.len() - k,
    {
        let ghost before = out@.map_values(|v: Vec<char>| v@);
        assert(sv.take(k + 1).drop_last() =~= sv.take(k as int));
        assert(segs@[k as int]@ == sv[k as int]);
        let seg = &segs[k];
        if seg.len() == 0 || seq_eq(seg, &dotv) {
        } else if seq_eq(seg, &dot_dotv) && out.len() > 0 && !seq_eq(&out[out.len() - 1], &dot_dotv) {
            out.pop();
            assert(out@.map_values(|v: Vec<char>| v@) =~= before.drop_last());
        } else {
            out.push(clone_chars(seg));
            assert(out@.map_values(|v: Vec<char>| v@) =~= before.push(sv[k as int]));
        }
        k = k + 1;
    }
    assert(sv.take(sv.len() as int) =~= sv);
    out
}

/// Remove `.` and `..` components from a path, so that a chain of imports
/// written as `./ci/shared.ci` doesn't read as `a/./ci/./shared.ci`.
pub fn normalize(path: &str) -> (r: String)
    ensures
        r@ == spec_normalize(path@),
{
    let cs = chars_of(path);
    let out = norm_components(&cs);
    let mut r: Vec<char> = Vec::new();
    if cs.len() > 0 && cs[0] == '/' {
        r.push('/');
    }
    let ghost head = r@;
    let ghost ov = out@.map_values(|v: Vec<char>| v@);
    let mut j: usize = 0;
    while j < out.len()
        invariant
            0 <= j <= out@.len(),
            ov == out@.map_values(|v: Vec<char>| v@),
            r@ == head + join_slash(ov.take(j as int)),
        decreases out@.len() - j,
    {
        if j > 0 {
            r.push('/');
        }
        let piece = &out[j];
        let ghost before = r@;
        let mut q: usize = 0;
        while q < piece.len()
            invariant
                0 <= q <= piece@.len(),
                r@ == before + piece@.take(q as int),
            decreases piece@.len() - q,
        {
            r.push(piece[q]);
            q = q + 1;
            assert(r@ =~= before + piece@.take(q as int));
        }
        proof {
            assert(piece@.take(piece@.len() as int) =~= piece@);
            assert(ov.take(j + 1).drop_last() =~= ov.take(j as int));
            assert(ov[j as int] == piece@);
            if j == 0 {
                assert(ov.take(1) =~= seq![piece@]);
            }
            assert(r@ =~= head + join_slash(ov.take(j + 1)));
        }
        j = j + 1;
    }
    assert(ov.take(ov.len() as int) =~= ov);
    string_from_chars(r.as_slice())
}

pub fn clone_chars(v: &Vec<char>) -> (r: Vec<char>)
    ensures
        r@ == v@,
{
    let mut r: Vec<char> = Vec::new();
    let mut i: usize = 0;
    while i < v.len()
        invariant
            0 <= i <= v@.len(),
            r@ == v@.take(i as int),
        decreases v@.len() - i,
    {
        r.push(v[i]);
        i = i + 1;
        assert(r@ =~= v@.take(i as int));
    }
    assert(v@.take(v@.len() as int) =~= v@);
    r
}

// ─── parent and join ─────────────────────────────────────────────────────────

/// Index of the last `/` in `s[..end]`, or `-1`.
pub open spec fn last_slash(s: Seq<char>, end: int) -> int
    decreases end,
{
    if end <= 0 || end > s.len() {
        -1
    } else if s[end - 1] == '/' {
        end - 1
    } else {
        last_slash(s, end - 1)
    }
}

/// The end of `s[..end]` with trailing `/`s dropped, keeping a leading one.
pub open spec fn trim_slashes(s: Seq<char>, end: int) -> int
    decreases end,
{
    if end <= 1 || end > s.len() {
        end
    } else if s[end - 1] == '/' {
        trim_slashes(s, end - 1)
    } else {
        end
    }
}

/// The directory a file's relative imports are resolved against: everything
/// before the last component, `.` when there is no directory to speak of.
pub open spec fn spec_parent_dir(s: Seq<char>) -> Seq<char> {
    let e = trim_slashes(s, s.len() as int);
    let cut = last_slash(s, e);
    if e == 0 || (e == 1 && s[0] == '/') {
        dot()
    } else if cut < 0 {
        Seq::empty()
    } else {
        let d = trim_slashes(s, cut);
        if d == 0 { seq!['/'] } else { s.subrange(0, d) }
    }
}

proof fn lemma_trim_slashes(s: Seq<char>, end: int)
    requires
        0 <= end <= s.len(),
    ensures
        0 <= trim_slashes(s, end) <= end,
        end >= 1 ==> trim_slashes(s, end) >= 1,
    decreases end,
{
    if end > 1 && s[end - 1] == '/' {
        lemma_trim_slashes(s, end - 1);
    }
}

proof fn lemma_last_slash(s: Seq<char>, end: int)
    requires
        0 <= end <= s.len(),
    ensures
        -1 <= last_slash(s, end) < end,
        last_slash(s, end) >= 0 ==> s[last_slash(s, end)] == '/',
    decreases end,
{
    if end > 0 && s[end - 1] != '/' {
        lemma_last_slash(s, end - 1);
    }
}

fn trim_slashes_exec(s: &Vec<char>, end: usize) -> (r: usize)
    requires
        end <= s@.len(),
    ensures
        r == trim_slashes(s@, end as int),
{
    let mut e = end;
    while e > 1 && s[e - 1] == '/'
        invariant
            0 <= e <= end,
            end <= s@.len(),
            trim_slashes(s@, e as int) == trim_slashes(s@, end as int),
        decreases e,
    {
        e = e - 1;
    }
    e
}

/// The directory a file's relative imports are resolved against.
pub fn parent_dir(path: &str) -> (r: String)
    ensures
        r@ == spec_parent_dir(path@),
{
    let cs = chars_of(path);
    let e = trim_slashes_exec(&cs, cs.len());
    proof {
        lemma_trim_slashes(path@, path@.len() as int);
        lemma_last_slash(path@, e as int);
    }
    if e == 0 || (e == 1 && cs[0] == '/') {
        let d: Vec<char> = vec!['.'];
        assert(d@ =~= dot());
        return string_from_chars(d.as_slice());
    }
    let mut cut: usize = e;
    while cut > 0 && cs[cut - 1] != '/'
        invariant
            0 <= cut <= e,
            e <= cs@.len(),
            cs@ == path@,
            last_slash(path@, cut as int) == last_slash(path@, e as int),
        decreases cut,
    {
        cut = cut - 1;
    }
    if cut == 0 {
        assert(last_slash(path@, e as int) < 0);
        return String::new();
    }
    assert(last_slash(path@, e as int) == cut - 1);
    let d = trim_slashes_exec(&cs, cut - 1);
    if d == 0 {
        let r: Vec<char> = vec!['/'];
        assert(r@ =~= seq!['/']);
        string_from_chars(r.as_slice())
    } else {
        proof {
            lemma_trim_slashes(path@, cut - 1);
        }
        crate::text::substring(&cs, 0, d)
    }
}

/// `rel` resolved against directory `base`: `rel` itself when it is absolute
/// or `base` is empty, else the two joined by a single `/`.
pub open spec fn spec_join_path(base: Seq<char>, rel: Seq<char>) -> Seq<char> {
    if is_absolute(rel) || base.len() == 0 {
        rel
    } else if base.last() == '/' {
        base + rel
    } else {
        base + seq!['/'] + rel
    }
}

/// `rel` resolved against directory `base`.
pub fn join_path(base: &str, rel: &str) -> (r: String)
    ensures
        r@ == spec_join_path(base@, rel@),
{
    let b = chars_of(base);
    let q = chars_of(rel);
    if (q.len() > 0 && q[0] == '/') || b.len() == 0 {
        return rel.to_owned();
    }
    let mut r = base.to_owned();
    if b[b.len() - 1] != '/' {
        r.append("/");
        proof {
            reveal_strlit("/");
        }
    }
    r.append(rel);
    r
}

/// The file a `use` import written in `file` with `path = rel` refers to.
pub open spec fn spec_import_target(file: Seq<char>, rel: Seq<char>) -> Seq<char> {
    spec_normalize(spec_join_path(spec_parent_dir(file), rel))
}

/// The file a `use` import written in `file` with `path = rel` refers to.
pub fn import_target(file: &str, rel: &str) -> (r: String)
    ensures
        r@ == spec_import_target(file@, rel@),
{
    let base = parent_dir(file);
    let joined = join_path(base.as_str(), rel);
    normalize(joined.as_str())
}


// ─── normalizing twice ───────────────────────────────────────────────────────

/// Components as `norm_segs` leaves them: none empty or `.`, and `..` only
/// before every other component.
pub open spec fn norm_ok(segs: Seq<Seq<char>>) -> bool {
    forall|i: int| 0 <= i < segs.len() ==> {
        &&& (#[trigger] segs[i]).len() > 0
        &&& segs[i] != dot()
        &&& !segs[i].contains('/')
        &&& (segs[i] == dot_dot() ==> forall|j: int| 0 <= j < i ==> #[trigger] segs[j] == dot_dot())
    }
}

proof fn lemma_join_front(segs: Seq<Seq<char>>)
    requires
        segs.len() >= 2,
    ensures
        join_slash(segs) == segs[0] + seq!['/'] + join_slash(segs.drop_first()),
    decreases segs.len(),
{
    if segs.len() == 2 {
        assert(segs.drop_last() =~= seq![segs[0]]);
        assert(segs.drop_first() =~= seq![segs[1]]);
        assert(join_slash(seq![segs[0]]) == segs[0]);
        assert(join_slash(seq![segs[1]]) == segs[1]);
        assert(join_slash(segs) == join_slash(segs.drop_last()) + seq!['/'] + segs.last());
    } else {
        lemma_join_front(segs.drop_last());
        let f = segs.drop_first();
        assert(segs.drop_last().drop_first() =~= f.drop_last());
        assert(f.last() == segs.last());
        assert(join_slash(f) == join_slash(f.drop_last()) + seq!['/'] + f.last());
        assert(join_slash(segs) == join_slash(segs.drop_last()) + seq!['/'] + segs.last());
        assert(join_slash(segs) =~= segs[0] + seq!['/'] + join_slash(segs.drop_first()));
    }
}

/// Splitting the joined components from `p` on gives them back.
proof fn lemma_split_join(s: Seq<char>, p: int, segs: Seq<Seq<char>>)
    requires
        0 <= p <= s.len(),
        segs.len() >= 1,
        forall|i: int| 0 <= i < segs.len() ==> !(#[trigger] segs[i]).contains('/'),
        s.subrange(p, s.len() as int) == join_slash(segs),
    ensures
        split_from(s, '/', p) == segs,
    decreases segs.len(),
{
    if segs.len() == 1 {
        assert forall|k: int| p <= k < s.len() implies s[k] != '/' by {
            assert(s.subrange(p, s.len() as int)[k - p] == s[k]);
            assert(segs[0][k - p] == s[k]);
        }
        lemma_find_at(s, '/', p, s.len() as int);
        assert(split_from(s, '/', p) =~= seq![segs[0]]);
    } else {
        lemma_join_front(segs);
        let i = p + segs[0].len();
        let t = s.subrange(p, s.len() as int);
        assert(t == segs[0] + seq!['/'] + join_slash(segs.drop_first()));
        assert(t.len() == segs[0].len() + 1 + join_slash(segs.drop_first()).len());
        assert(i < s.len());
        assert(t[segs[0].len() as int] == '/');
        assert forall|k: int| p <= k < i implies s[k] != '/' by {
            assert(t[k - p] == s[k]);
            assert(t[k - p] == segs[0][k - p]);
        }
        assert(s[i] == t[i - p]);
        lemma_find_at(s, '/', p, i);
        assert(s.subrange(p, i) =~= segs[0]);
        assert(t.subrange(segs[0].len() + 1int, t.len() as int) =~= join_slash(segs.drop_first()));
        assert(s.subrange(i + 1, s.len() as int) =~= t.subrange(segs[0].len() + 1int, t.len() as int));
        lemma_split_join(s, i + 1, segs.drop_first());
        assert(split_from(s, '/', p) =~= seq![segs[0]] + segs.drop_first());
    }
}

/// No piece of a split holds the separator.
proof fn lemma_split_pieces(s: Seq<char>, p: int)
    requires
        0 <= p <= s.len(),
    ensures
        forall|i: int| 0 <= i < split_from(s, '/', p).len() ==> !(#[trigger] split_from(s, '/', p)[i]).contains('/'),
    decreases s.len() - p,
{
    lemma_find_char_from(s, '/', p);
    let i = find_char_from(s, '/', p);
    let piece = s.subrange(p, i);
    assert(!piece.contains('/')) by {
        if piece.contains('/') {
            let k = choose|k: int| 0 <= k < piece.len() && piece[k] == '/';
            assert(s[p + k] == '/');
        }
    }
    if i < s.len() {
        lemma_split_pieces(s, i + 1);
        let rest = split_from(s, '/', i + 1);
        assert forall|j: int| 0 <= j < split_from(s, '/', p).len() implies !(#[trigger] split_from(s, '/', p)[j]).contains('/') by {
            if j > 0 {
                assert(split_from(s, '/', p)[j] == rest[j - 1]);
            }
        }
    }
}

proof fn lemma_norm_segs_ok(segs: Seq<Seq<char>>)
    requires
        forall|i: int| 0 <= i < segs.len() ==> !(#[trigger] segs[i]).contains('/'),
    ensures
        norm_ok(norm_segs(segs)),
    decreases segs.len(),
{
    if segs.len() > 0 {
        let prev = segs.drop_last();
        assert forall|i: int| 0 <= i < prev.len() implies !(#[trigger] prev[i]).contains('/') by {
            assert(prev[i] == segs[i]);
        }
        lemma_norm_segs_ok(prev);
        let out = norm_segs(prev);
        let seg = segs.last();
        assert(!seg.contains('/')) by {
            assert(seg == segs[segs.len() - 1]);
        }
        let r = norm_push(out, seg);
        assert forall|i: int| 0 <= i < r.len() implies {
            &&& (#[trigger] r[i]).len() > 0
            &&& r[i] != dot()
            &&& !r[i].contains('/')
            &&& (r[i] == dot_dot() ==> forall|j: int| 0 <= j < i ==> #[trigger] r[j] == dot_dot())
        } by {
            if i < out.len() && (r == out || r == out.drop_last() || r == out.push(seg)) {
                assert(r[i] == out[i]);
                assert forall|j: int| 0 <= j < i implies r[j] == out[j] by {}
            }
            if r == out.push(seg) && i == out.len() {
                if seg == dot_dot() {
                    assert forall|j: int| 0 <= j < i implies #[trigger] r[j] == dot_dot() by {
                        assert(out.len() > 0 ==> out.last() == dot_dot());
                        assert(out[out.len() - 1] == out.last());
                        assert(r[j] == out[j]);
                    }
                }
            }
        }
    }
}

/// Components `norm_segs` left are kept as they are, even after an empty
/// one from a leading `/`.
proof fn lemma_norm_fixed(segs: Seq<Seq<char>>, lead: bool)
    requires
        norm_ok(segs),
    ensures
        norm_segs(if lead { seq![Seq::<char>::empty()] + segs } else { segs }) == segs,
    decreases segs.len(),
{
    let full = if lead { seq![Seq::<char>::empty()] + segs } else { segs };
    if segs.len() == 0 {
        if lead {
            assert(full =~= seq![Seq::<char>::empty()]);
            assert(full.drop_last() =~= Seq::<Seq<char>>::empty());
            assert(norm_segs(full) == norm_push(norm_segs(full.drop_last()), full.last()));
        }
    } else {
        let prev = segs.drop_last();
        assert(norm_ok(prev)) by {
            assert forall|i: int| 0 <= i < prev.len() implies prev[i] == segs[i] by {}
        }
        lemma_norm_fixed(prev, lead);
        let pfull = if lead { seq![Seq::<char>::empty()] + prev } else { prev };
        assert(full.drop_last() =~= pfull);
        assert(full.last() == segs.last());
        let last = segs.last();
        assert(last == segs[segs.len() - 1]);
        if last == dot_dot() && prev.len() > 0 {
            assert(prev.last() == segs[segs.len() - 2]);
        }
        assert(norm_push(prev, last) =~= segs);
        assert(norm_segs(full) == norm_push(norm_segs(full.drop_last()), full.last()));
    }
}

/// A normalized path is its leading `/`, if it has one, and then the
/// components it keeps joined by `/`: none of them empty, `.` or holding a
/// `/`, and each `..` before every other component.
pub proof fn lemma_normalize_form(s: Seq<char>)
    ensures
        norm_ok(norm_segs(split_on(s, '/'))),
        spec_normalize(s) == (if is_absolute(s) { seq!['/'] } else { Seq::<char>::empty() }) + join_slash(
            norm_segs(split_on(s, '/')),
        ),
{
    lemma_split_pieces(s, 0);
    lemma_norm_segs_ok(split_on(s, '/'));
}

/// Normalizing a path twice gives what normalizing it once does.
pub proof fn lemma_normalize_idempotent(s: Seq<char>)
    ensures
        spec_normalize(spec_normalize(s)) == spec_normalize(s),
{
    lemma_split_pieces(s, 0);
    let segs = norm_segs(split_on(s, '/'));
    lemma_norm_segs_ok(split_on(s, '/'));
    let abs = is_absolute(s);
    let r = spec_normalize(s);
    let pre = if abs { seq!['/'] } else { Seq::<char>::empty() };
    assert(r == pre + join_slash(segs));
    if segs.len() == 0 {
        assert(join_slash(segs) == Seq::<char>::empty());
        if abs {
            assert(r =~= seq!['/']);
            lemma_find_at(r, '/', 0, 0);
            lemma_find_at(r, '/', 1, 1);
            assert(split_from(r, '/', 1) == seq![r.subrange(1, 1)]);
            assert(r.subrange(1, 1) =~= Seq::<char>::empty());
            assert(r.subrange(0, 0) =~= Seq::<char>::empty());
            assert(split_from(r, '/', 0) == seq![r.subrange(0, 0)] + split_from(r, '/', 1));
            let e = Seq::<char>::empty();
            assert(split_on(r, '/') =~= seq![e, e]);
            assert(seq![e, e].drop_last() =~= seq![e]);
            assert(seq![e].drop_last() =~= Seq::<Seq<char>>::empty());
            assert(norm_segs(seq![e]) == norm_push(norm_segs(Seq::<Seq<char>>::empty()), e));
            assert(norm_segs(seq![e, e]) == norm_push(norm_segs(seq![e]), e));
            assert(norm_segs(split_on(r, '/')) =~= segs);
            assert(is_absolute(r));
        } else {
            assert(r =~= Seq::<char>::empty());
            lemma_find_at(r, '/', 0, 0);
            assert(split_from(r, '/', 0) == seq![r.subrange(0, 0)]);
            assert(r.subrange(0, 0) =~= Seq::<char>::empty());
            let e = Seq::<char>::empty();
            assert(split_on(r, '/') =~= seq![e]);
            assert(seq![e].drop_last() =~= Seq::<Seq<char>>::empty());
            assert(norm_segs(seq![e]) == norm_push(norm_segs(Seq::<Seq<char>>::empty()), e));
            assert(norm_segs(split_on(r, '/')) =~= segs);
            assert(!is_absolute(r));
        }
    } else {
        assert forall|i: int| 0 <= i < segs.len() implies !(#[trigger] segs[i]).contains('/') by {}
        if abs {
            assert(r.subrange(1, r.len() as int) =~= join_slash(segs));
            lemma_split_join(r, 1, segs);
            lemma_find_at(r, '/', 0, 0);
            assert(split_from(r, '/', 0) == seq![r.subrange(0, 0)] + split_from(r, '/', 1));
            assert(r.subrange(0, 0) =~= Seq::<char>::empty());
            assert(split_on(r, '/') =~= seq![Seq::<char>::empty()] + segs);
            lemma_norm_fixed(segs, true);
            assert(norm_segs(split_on(r, '/')) == segs);
            assert(is_absolute(r));
        } else {
            assert(r.subrange(0, r.len() as int) =~= join_slash(segs));
            lemma_split_join(r, 0, segs);
            lemma_norm_fixed(segs, false);
            assert(norm_segs(split_on(r, '/')) == segs);
            if segs.len() >= 2 {
                lemma_join_front(segs);
            }
            assert(segs[0].len() > 0 && !segs[0].contains('/'));
            assert(r[0] == segs[0][0]);
            assert(!is_absolute(r));
        }
    }
}

} // verus!

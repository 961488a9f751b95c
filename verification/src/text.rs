use vstd::prelude::*;
use vstd::std_specs::iter::IteratorSpec;

verus! {

/// Builds a `String` from a slice of characters.
///
/// Calls std's `Iterator::collect` on the characters, through
/// `String: FromIterator<char>`; the contract claims, as std documents, that
/// the string holds exactly these characters, in order.
#[verifier::external_body]
pub(crate) fn string_from_chars(chars: &[char]) -> (s: String)
    ensures
        s@ == chars@,
{
    chars.iter().collect()
}

/// The characters of a string slice, in order.
pub fn chars_of(s: &str) -> (r: Vec<char>)
    ensures
        r@ == s@,
{
    let mut v: Vec<char> = Vec::new();
    proof {
        broadcast use vstd::string::group_string_axioms;
    }
    for c in it: s.chars()
        invariant
            v@ == it.seq().take(it.index() as int),
            it.seq() == s@,
    {
        v.push(c);
    }
    v
}

/// The characters `src[start..end]` as a new vector.
pub fn sub_chars(src: &Vec<char>, start: usize, end: usize) -> (r: Vec<char>)
    requires
        start <= end <= src@.len(),
    ensures
        r@ == src@.subrange(start as int, end as int),
{
    let mut v: Vec<char> = Vec::new();
    let mut i = start;
    while i < end
        invariant
            start <= i <= end <= src@.len(),
            v@ == src@.subrange(start as int, i as int),
        decreases end - i,
    {
        v.push(src[i]);
        i = i + 1;
        assert(v@ =~= src@.subrange(start as int, i as int));
    }
    v
}

/// The string holding `src[start..end]`.
pub fn substring(src: &Vec<char>, start: usize, end: usize) -> (r: String)
    requires
        start <= end <= src@.len(),
    ensures
        r@ == src@.subrange(start as int, end as int),
{
    let v = sub_chars(src, start, end);
    string_from_chars(v.as_slice())
}

/// `true` if the two strings hold the same characters.
pub fn str_eq(a: &str, b: &str) -> (r: bool)
    ensures
        r == (a@ == b@),
{
    let x = chars_of(a);
    let y = chars_of(b);
    if x.len() != y.len() {
        return false;
    }
    let mut i: usize = 0;
    while i < x.len()
        invariant
            x@ == a@,
            y@ == b@,
            x@.len() == y@.len(),
            0 <= i <= x@.len(),
            forall|j: int| 0 <= j < i ==> x@[j] == y@[j],
        decreases x@.len() - i,
    {
        if x[i] != y[i] {
            return false;
        }
        i = i + 1;
    }
    assert(x@ =~= y@);
    true
}

/// Concatenation of two strings.
pub fn concat(a: &str, b: &str) -> (r: String)
    ensures
        r@ == a@ + b@,
{
    let mut s = a.to_owned();
    s.append(b);
    s
}

/// Index of the first `c` in `s` at or after `from`, or `s.len()` if there is none.
pub open spec fn find_char_from(s: Seq<char>, c: char, from: int) -> int
    decreases s.len() - from,
{
    if from < 0 || from >= s.len() {
        s.len() as int
    } else if s[from] == c {
        from
    } else {
        find_char_from(s, c, from + 1)
    }
}

pub open spec fn find_char(s: Seq<char>, c: char) -> int {
    find_char_from(s, c, 0)
}

pub proof fn lemma_find_char_from(s: Seq<char>, c: char, from: int)
    requires
        0 <= from <= s.len(),
    ensures
        from <= find_char_from(s, c, from) <= s.len(),
        find_char_from(s, c, from) < s.len() ==> s[find_char_from(s, c, from)] == c,
        forall|i: int| from <= i < find_char_from(s, c, from) ==> s[i] != c,
    decreases s.len() - from,
{
    if from < s.len() && s[from] != c {
        lemma_find_char_from(s, c, from + 1);
    }
}

/// `s` split around its first `c`, if it holds one.
pub open spec fn spec_split_once(s: Seq<char>, c: char) -> Option<(Seq<char>, Seq<char>)> {
    let i = find_char(s, c);
    if i < s.len() {
        Some((s.subrange(0, i), s.subrange(i + 1, s.len() as int)))
    } else {
        None
    }
}

/// Position (in characters) of the first `c` in `s`, if any.
pub fn find_char_in(s: &str, c: char) -> (r: Option<usize>)
    ensures
        r matches Some(i) ==> i == find_char(s@, c) && i < s@.len(),
        r is None ==> find_char(s@, c) == s@.len(),
{
    let cs = chars_of(s);
    let mut i: usize = 0;
    proof {
        lemma_find_char_from(s@, c, 0);
    }
    while i < cs.len()
        invariant
            cs@ == s@,
            0 <= i <= cs@.len(),
            find_char(s@, c) == find_char_from(s@, c, i as int),
        decreases cs@.len() - i,
    {
        if cs[i] == c {
            return Some(i);
        }
        i = i + 1;
    }
    None
}

/// `true` if `s` holds `c`.
pub fn contains_char(s: &str, c: char) -> (r: bool)
    ensures
        r == (find_char(s@, c) < s@.len()),
{
    find_char_in(s, c).is_some()
}

/// `s` split around its first `c`, if it holds one.
pub fn split_once(s: &str, c: char) -> (r: Option<(String, String)>)
    ensures
        r matches Some((a, b)) ==> spec_split_once(s@, c) == Some((a@, b@)),
        r is None ==> spec_split_once(s@, c) is None,
{
    match find_char_in(s, c) {
        None => None,
        Some(i) => {
            let cs = chars_of(s);
            let a = substring(&cs, 0, i);
            let b = substring(&cs, i + 1, cs.len());
            Some((a, b))
        },
    }
}

/// The concatenation of all the parts, in order.
pub open spec fn concat_all(parts: Seq<&str>) -> Seq<char>
    decreases parts.len(),
{
    if parts.len() == 0 {
        Seq::empty()
    } else {
        concat_all(parts.drop_last()) + parts.last()@
    }
}

/// A string made of all the parts, in order.
pub fn cat(parts: &[&str]) -> (r: String)
    ensures
        r@ == concat_all(parts@),
{
    let mut r = String::new();
    let mut i: usize = 0;
    while i < parts.len()
        invariant
            0 <= i <= parts@.len(),
            r@ == concat_all(parts@.take(i as int)),
        decreases parts@.len() - i,
    {
        assert(parts@.take(i + 1).drop_last() =~= parts@.take(i as int));
        r.append(parts[i]);
        i = i + 1;
    }
    assert(parts@.take(parts@.len() as int) =~= parts@);
    r
}

/// `true` if some element of `v` equals `s`.
pub fn contains_str(v: &Vec<String>, s: &str) -> (r: bool)
    ensures
        r == (exists|i: int| 0 <= i < v@.len() && #[trigger] v@[i]@ == s@),
{
    let mut i: usize = 0;
    while i < v.len()
        invariant
            0 <= i <= v@.len(),
            forall|j: int| 0 <= j < i ==> #[trigger] v@[j]@ != s@,
        decreases v@.len() - i,
    {
        if str_eq(v[i].as_str(), s) {
            return true;
        }
        i = i + 1;
    }
    false
}

/// `true` if some element of `v` equals `s`.
pub fn contains_slice_str(v: &[&str], s: &str) -> (r: bool)
    ensures
        r == (exists|i: int| 0 <= i < v@.len() && #[trigger] v@[i]@ == s@),
{
    let mut i: usize = 0;
    while i < v.len()
        invariant
            0 <= i <= v@.len(),
            forall|j: int| 0 <= j < i ==> #[trigger] v@[j]@ != s@,
        decreases v@.len() - i,
    {
        if str_eq(v[i], s) {
            return true;
        }
        i = i + 1;
    }
    false
}

} // verus!

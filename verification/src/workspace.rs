use vstd::prelude::*;

use crate::ast::{AstNode, HasName, Root, seq_path, spec_attr_scalar, spec_name, spec_root_items};
use crate::cst::Node;
use crate::parser::parse;
use crate::paths::{
    dot_dot, import_target, norm_components, norm_segs, seq_eq, spec_import_target, split_on,
};
use crate::syntax::SyntaxKind;
use crate::text::{chars_of, str_eq};

verus! {

// ─── what a file imports ─────────────────────────────────────────────────────

/// The `path` values of the `use` imports among `decls[..k]` that have one.
pub open spec fn spec_use_paths(decls: Seq<Node>, k: int) -> Seq<Seq<char>>
    decreases k,
{
    if k <= 0 || k > decls.len() {
        Seq::empty()
    } else {
        spec_use_paths(decls, k - 1) + match spec_attr_scalar(decls[k - 1], seq_path()) {
            Some(p) => seq![p],
            None => Seq::empty(),
        }
    }
}

/// The `path` of every `use` import of a file, in order, as written.
pub fn use_paths(root: &Root) -> (r: Vec<String>)
    ensures
        r@.map_values(|s: String| s@) == spec_use_paths(
            spec_root_items(root.node(), SyntaxKind::UseDecl),
            spec_root_items(root.node(), SyntaxKind::UseDecl).len() as int,
        ),
{
    let decls = root.use_decls();
    let ghost sd = spec_root_items(root.node(), SyntaxKind::UseDecl);
    let mut r: Vec<String> = Vec::new();
    let mut i: usize = 0;
    while i < decls.len()
        invariant
            0 <= i <= decls@.len(),
            decls@.len() == sd.len(),
            forall|j: int| 0 <= j < decls@.len() ==> #[trigger] decls@[j].node() == sd[j],
            r@.map_values(|s: String| s@) == spec_use_paths(sd, i as int),
        decreases decls@.len() - i,
    {
        let ghost before = r@.map_values(|s: String| s@);
        assert(decls@[i as int].node() == sd[i as int]);
        match decls[i].path() {
            Some(p) => {
                r.push(p);
                assert(r@.map_values(|s: String| s@) =~= before + seq![r@.last()@]);
            },
            None => {
                assert(before + Seq::<Seq<char>>::empty() =~= before);
            },
        }
        i = i + 1;
    }
    r
}

/// `paths` are the `path` of every `use` import of a parse of `source`.
pub open spec fn scanned_imports(source: Seq<char>, paths: Seq<Seq<char>>) -> bool {
    exists|tree: Node| #![auto] tree.kind == SyntaxKind::Root
        && crate::cst::node_text(tree) == source
        && paths == spec_use_paths(
            spec_root_items(tree, SyntaxKind::UseDecl),
            spec_root_items(tree, SyntaxKind::UseDecl).len() as int,
        )
}

/// The `path` of every `use` import in `source`, as written.
pub fn scan_imports(source: &str) -> (r: Vec<String>)
    ensures
        scanned_imports(source@, r@.map_values(|s: String| s@)),
{
    let parsed = parse(source);
    match Root::cast(parsed.syntax()) {
        Some(root) => use_paths(&root),
        None => Vec::new(),
    }
}

/// What one file of a workspace imports: the `path` of each of its `use`
/// imports as written, or nothing when the file can't be read.
#[derive(Debug)]
pub struct FileImports {
    pub path: String,
    pub uses: Option<Vec<String>>,
}

/// Index of the first file whose path is `path`, or the number of files.
pub open spec fn file_index(files: Seq<FileImports>, path: Seq<char>, from: int) -> int
    decreases files.len() - from,
{
    if from < 0 || from >= files.len() {
        files.len() as int
    } else if files[from].path@ == path {
        from
    } else {
        file_index(files, path, from + 1)
    }
}

proof fn lemma_file_index(files: Seq<FileImports>, path: Seq<char>, from: int)
    requires
        0 <= from <= files.len(),
    ensures
        from <= file_index(files, path, from) <= files.len(),
        file_index(files, path, from) < files.len() ==> files[file_index(files, path, from)].path@ == path,
    decreases files.len() - from,
{
    if from < files.len() && files[from].path@ != path {
        lemma_file_index(files, path, from + 1);
    }
}

/// Position of the first file whose path is `path`.
pub fn find_file(files: &Vec<FileImports>, path: &str) -> (r: Option<usize>)
    ensures
        r matches Some(i) ==> i == file_index(files@, path@, 0) && i < files@.len(),
        r is None ==> file_index(files@, path@, 0) == files@.len(),
{
    let mut i: usize = 0;
    while i < files.len()
        invariant
            0 <= i <= files@.len(),
            file_index(files@, path@, 0) == file_index(files@, path@, i as int),
        decreases files@.len() - i,
    {
        if str_eq(files[i].path.as_str(), path) {
            return Some(i);
        }
        i = i + 1;
    }
    None
}

/// The files that the imports `uses`, written in `file`, refer to and that
/// exist, in order.
pub open spec fn spec_targets(files: Seq<FileImports>, file: Seq<char>, uses: Seq<Seq<char>>) -> Seq<usize>
    decreases uses.len(),
{
    if uses.len() == 0 {
        Seq::empty()
    } else {
        let rest = spec_targets(files, file, uses.drop_last());
        let t = file_index(files, spec_import_target(file, uses.last()), 0);
        if t < files.len() {
            rest.push(t as usize)
        } else {
            rest
        }
    }
}

/// The import graph: for each readable file, the files it imports that exist.
pub open spec fn spec_edges(files: Seq<FileImports>) -> Seq<Option<Seq<usize>>> {
    files.map_values(|f: FileImports| match f.uses {
        Some(u) => Some(spec_targets(files, f.path@, crate::ir::strs_view(u@))),
        None => None,
    })
}

pub open spec fn edges_view(e: Seq<Option<Vec<usize>>>) -> Seq<Option<Seq<usize>>> {
    e.map_values(|o: Option<Vec<usize>>| match o {
        Some(v) => Some(v@),
        None => None,
    })
}

proof fn lemma_targets_in_range(files: Seq<FileImports>, file: Seq<char>, uses: Seq<Seq<char>>)
    requires
        files.len() <= usize::MAX,
    ensures
        forall|k: int| 0 <= k < spec_targets(files, file, uses).len() ==> #[trigger] spec_targets(files, file, uses)[k] < files.len(),
    decreases uses.len(),
{
    if uses.len() > 0 {
        lemma_targets_in_range(files, file, uses.drop_last());
        lemma_file_index(files, spec_import_target(file, uses.last()), 0);
        let t = file_index(files, spec_import_target(file, uses.last()), 0);
        let rest = spec_targets(files, file, uses.drop_last());
        if t < files.len() {
            assert forall|k: int| 0 <= k < rest.push(t as usize).len() implies #[trigger] rest.push(t as usize)[k] < files.len() by {
                if k < rest.len() {
                    assert(rest.push(t as usize)[k] == rest[k]);
                }
            }
        }
    }
}

/// The import graph of a workspace: for each readable file, the positions
/// of the files its imports refer to that exist.
pub fn import_graph(files: &Vec<FileImports>) -> (r: Vec<Option<Vec<usize>>>)
    ensures
        edges_view(r@) == spec_edges(files@),
{
    let mut r: Vec<Option<Vec<usize>>> = Vec::new();
    let mut i: usize = 0;
    while i < files.len()
        invariant
            0 <= i <= files@.len(),
            edges_view(r@) == spec_edges(files@).take(i as int),
            r@.len() == i,
        decreases files@.len() - i,
    {
        let ghost before = edges_view(r@);
        let f = &files[i];
        match &f.uses {
            None => {
                r.push(None);
            },
            Some(uses) => {
                let ghost uv = crate::ir::strs_view(uses@);
                let mut ts: Vec<usize> = Vec::new();
                let mut k: usize = 0;
                while k < uses.len()
                    invariant
                        0 <= k <= uses@.len(),
                        uv == crate::ir::strs_view(uses@),
                        ts@ == spec_targets(files@, f.path@, uv.take(k as int)),
                        edges_view(r@) == spec_edges(files@).take(i as int),
                        r@.len() == i,
                        i < files@.len(),
                        *f == files@[i as int],
                        f.uses == Some(*uses),
                    decreases uses@.len() - k,
                {
                    assert(uv.take(k + 1).drop_last() =~= uv.take(k as int));
                    let target = import_target(f.path.as_str(), uses[k].as_str());
                    match find_file(files, target.as_str()) {
                        Some(t) => ts.push(t),
                        None => {},
                    }
                    k = k + 1;
                }
                assert(uv.take(uses@.len() as int) =~= uv);
                r.push(Some(ts));
                assert(r@[i as int] == Some(ts));
                assert(edges_view(r@)[i as int] == Some(ts@));
                assert(f.uses == Some(*uses));
                assert(spec_edges(files@)[i as int] == Some(spec_targets(files@, f.path@, uv)));
            },
        }
        assert(edges_view(r@)[i as int] == spec_edges(files@)[i as int]);
        assert(edges_view(r@) =~= spec_edges(files@).take(i + 1));
        i = i + 1;
    }
    assert(spec_edges(files@).take(files@.len() as int) =~= spec_edges(files@));
    r
}

pub open spec fn edges_in_range(g: Seq<Option<Seq<usize>>>) -> bool {
    forall|i: int, k: int| 0 <= i < g.len() && g[i] is Some && 0 <= k < g[i]->0.len()
        ==> #[trigger] g[i]->0[k] < g.len()
}

pub proof fn lemma_edges_in_range(files: Seq<FileImports>)
    requires
        files.len() <= usize::MAX,
    ensures
        edges_in_range(spec_edges(files)),
{
    assert forall|i: int, k: int| 0 <= i < spec_edges(files).len() && spec_edges(files)[i] is Some
        && 0 <= k < spec_edges(files)[i]->0.len() implies #[trigger] spec_edges(files)[i]->0[k] < spec_edges(files).len() by {
        let f = files[i];
        lemma_targets_in_range(files, f.path@, crate::ir::strs_view(f.uses->0@));
    }
}

// ─── files reachable through imports ─────────────────────────────────────────

/// `x` is imported by file `from`.
pub open spec fn imports(g: Seq<Option<Seq<usize>>>, from: int, x: usize) -> bool {
    0 <= from < g.len() && g[from] is Some && g[from]->0.contains(x)
}

/// What `referenced_files` promises of `r`, the files reachable from `root`:
/// each listed once, the root never, each imported by the root or by a file
/// listed before it, and every import of the root and of a listed file
/// either the root or listed.
pub open spec fn is_reference_list(g: Seq<Option<Seq<usize>>>, root: usize, r: Seq<usize>) -> bool {
    &&& forall|i: int, j: int| 0 <= i < j < r.len() ==> r[i] != r[j]
    &&& forall|i: int| 0 <= i < r.len() ==> #[trigger] r[i] != root && r[i] < g.len()
    &&& forall|i: int| 0 <= i < r.len() ==> imports(g, root as int, #[trigger] r[i])
        || exists|m: int| 0 <= m < i && imports(g, r[m] as int, r[i])
    &&& forall|x: usize| imports(g, root as int, x) ==> x == root || r.contains(x)
    &&& forall|i: int, x: usize| 0 <= i < r.len() && #[trigger] imports(g, r[i] as int, x) ==> x == root || r.contains(x)
}

pub open spec fn unmarked_count(v: Seq<bool>) -> nat
    decreases v.len(),
{
    if v.len() == 0 {
        0
    } else {
        unmarked_count(v.drop_last()) + if v.last() { 0nat } else { 1nat }
    }
}

/// Marking an unmarked file leaves one fewer unmarked.
pub proof fn lemma_mark(v: Seq<bool>, i: int)
    requires
        0 <= i < v.len(),
        !v[i],
    ensures
        unmarked_count(v.update(i, true)) + 1 == unmarked_count(v),
    decreases v.len(),
{
    let u = v.update(i, true);
    if i == v.len() - 1 {
        assert(u.drop_last() =~= v.drop_last());
    } else {
        assert(u.drop_last() =~= v.drop_last().update(i, true));
        lemma_mark(v.drop_last(), i);
    }
}

/// The state of the breadth-first walk of `reachable`: `seen` marks the root
/// and every file listed in `out`; `pos` says where a seen file is listed, and
/// `why` which earlier file (or the root, `-1`) imports it; the files before
/// `head` have had all their imports seen.
pub open spec fn bfs_inv(
    g: Seq<Option<Seq<usize>>>,
    root: usize,
    seen: Seq<bool>,
    out: Seq<usize>,
    pos: Seq<int>,
    why: Seq<int>,
    head: int,
) -> bool {
    &&& seen.len() == g.len()
    &&& pos.len() == g.len()
    &&& why.len() == out.len()
    &&& root < g.len()
    &&& seen[root as int]
    &&& 0 <= head <= out.len()
    &&& forall|i: int| 0 <= i < out.len() ==> #[trigger] out[i] != root && out[i] < g.len()
        && seen[out[i] as int] && pos[out[i] as int] == i
    &&& forall|x: int| 0 <= x < g.len() && #[trigger] seen[x] && x != root ==> 0 <= pos[x] < out.len() && out[pos[x]] == x
    &&& forall|i: int| 0 <= i < out.len() ==> (if #[trigger] why[i] == -1 {
            imports(g, root as int, out[i])
        } else {
            0 <= why[i] < i && imports(g, out[why[i]] as int, out[i])
        })
    &&& forall|i: int, x: usize| 0 <= i < head && #[trigger] imports(g, out[i] as int, x) ==> seen[x as int]
}

/// Mark each of `es`, the imports of `from` (a listed file, or the root when
/// `from` is `-1`), as seen, listing the new ones.
fn enqueue(
    es: &Vec<usize>,
    seen: &mut Vec<bool>,
    out: &mut Vec<usize>,
    Ghost(g): Ghost<Seq<Option<Seq<usize>>>>,
    Ghost(root): Ghost<usize>,
    Ghost(from): Ghost<int>,
    Ghost(pos0): Ghost<Seq<int>>,
    Ghost(why0): Ghost<Seq<int>>,
    Ghost(head): Ghost<int>,
) -> (res: Ghost<(Seq<int>, Seq<int>)>)
    requires
        bfs_inv(g, root, old(seen)@, old(out)@, pos0, why0, head),
        edges_in_range(g),
        from == -1 ==> g[root as int] == Some(es@),
        from != -1 ==> 0 <= from < old(out)@.len() && g[old(out)@[from] as int] == Some(es@),
    ensures
        bfs_inv(g, root, final(seen)@, final(out)@, res@.0, res@.1, head),
        final(out)@.len() >= old(out)@.len(),
        final(out)@.subrange(0, old(out)@.len() as int) == old(out)@,
        unmarked_count(final(seen)@) + (final(out)@.len() - old(out)@.len()) == unmarked_count(old(seen)@),
        forall|k: int| 0 <= k < es@.len() ==> final(seen)@[#[trigger] es@[k] as int],
        forall|x: int| 0 <= x < old(seen)@.len() && old(seen)@[x] ==> #[trigger] final(seen)@[x],
{
    let ghost out0 = out@;
    let ghost seen0 = seen@;
    let ghost src: int = if from == -1 { root as int } else { out0[from] as int };
    let ghost mut pos = pos0;
    let ghost mut why = why0;
    let mut p: usize = 0;
    while p < es.len()
        invariant
            0 <= p <= es@.len(),
            g[src] == Some(es@),
            0 <= src < g.len(),
            edges_in_range(g),
            from == -1 ==> src == root,
            from != -1 ==> 0 <= from < out0.len() && src == out0[from],
            bfs_inv(g, root, seen@, out@, pos, why, head),
            out@.len() >= out0.len(),
            out@.subrange(0, out0.len() as int) == out0,
            unmarked_count(seen@) + (out@.len() - out0.len()) == unmarked_count(seen0),
            forall|k: int| 0 <= k < p ==> seen@[#[trigger] es@[k] as int],
            seen@.len() == seen0.len(),
            forall|x: int| 0 <= x < seen0.len() && seen0[x] ==> #[trigger] seen@[x],
        decreases es@.len() - p,
    {
        let t = es[p];
        assert(g[src]->0[p as int] == t);
        assert(t < g.len());
        if !seen[t] {
            let ghost out1 = out@;
            let ghost seen1 = seen@;
            let ghost pos1 = pos;
            let ghost why1 = why;
            proof {
                lemma_mark(seen1, t as int);
            }
            seen.set(t, true);
            out.push(t);
            proof {
                pos = pos1.update(t as int, out1.len() as int);
                why = why1.push(from);
                assert(out@.subrange(0, out0.len() as int) =~= out1.subrange(0, out0.len() as int));
                assert(es@.contains(t)) by {
                    assert(es@[p as int] == t);
                }
                if from != -1 {
                    assert(out@[from] == out0[from]);
                }
                assert forall|i: int| 0 <= i < out@.len() implies (if #[trigger] why[i] == -1 {
                    imports(g, root as int, out@[i])
                } else {
                    0 <= why[i] < i && imports(g, out@[why[i]] as int, out@[i])
                }) by {
                    if i < out1.len() {
                        assert(out@[i] == out1[i]);
                        assert(why[i] == why1[i]);
                        if why1[i] != -1 {
                            assert(out@[why1[i]] == out1[why1[i]]);
                        }
                    }
                }
                assert forall|i: int| 0 <= i < out@.len() implies #[trigger] out@[i] != root && out@[i] < g.len()
                    && seen@[out@[i] as int] && pos[out@[i] as int] == i by {
                    if i < out1.len() {
                        assert(out@[i] == out1[i]);
                    }
                }
                assert forall|x: int| 0 <= x < g.len() && #[trigger] seen@[x] && x != root implies 0 <= pos[x] < out@.len() && out@[pos[x]] == x by {
                    if x != t as int {
                        assert(seen1[x]);
                        assert(out@[pos1[x]] == out1[pos1[x]]);
                    }
                }
                assert forall|i: int, x: usize| 0 <= i < head && #[trigger] imports(g, out@[i] as int, x) implies seen@[x as int] by {
                    assert(out@[i] == out1[i]);
                    assert(imports(g, out1[i] as int, x));
                }
            }
        }
        p = p + 1;
    }
    Ghost((pos, why))
}

/// The files reachable from `root` through imports, each listed once, in the
/// order a breadth-first walk meets them; the root itself is not listed.
///
/// Fails when the root can't be read.
pub fn reachable(graph: &Vec<Option<Vec<usize>>>, root: usize) -> (r: Result<Vec<usize>, ()>)
    requires
        root < graph@.len(),
        edges_in_range(edges_view(graph@)),
    ensures
        r is Err <==> graph@[root as int] is None,
        r matches Ok(v) ==> is_reference_list(edges_view(graph@), root, v@),
{
    let ghost g = edges_view(graph@);
    let first = match &graph[root] {
        None => return Err(()),
        Some(es) => es,
    };
    assert(g[root as int] == Some(first@));
    let n = graph.len();
    let mut seen: Vec<bool> = Vec::new();
    let mut k: usize = 0;
    while k < n
        invariant
            0 <= k <= n,
            n == graph@.len(),
            seen@.len() == k,
            forall|i: int| 0 <= i < k ==> seen@[i] == (i == root),
        decreases n - k,
    {
        seen.push(k == root);
        k = k + 1;
    }
    let mut out: Vec<usize> = Vec::new();
    let ghost mut pos: Seq<int> = Seq::new(n as nat, |i: int| 0int);
    let ghost mut why: Seq<int> = Seq::empty();
    proof {
        assert forall|x: int| 0 <= x < g.len() && #[trigger] seen@[x] && x != root implies 0 <= pos[x] < out@.len() && out@[pos[x]] == x by {
            assert(seen@[x] == (x == root));
        }
    }
    let res = enqueue(first, &mut seen, &mut out, Ghost(g), Ghost(root), Ghost(-1), Ghost(pos), Ghost(why), Ghost(0));
    proof {
        pos = res@.0;
        why = res@.1;
    }
    let mut head: usize = 0;
    while head < out.len()
        invariant
            g == edges_view(graph@),
            edges_in_range(g),
            n == graph@.len(),
            g[root as int] == Some(first@),
            bfs_inv(g, root, seen@, out@, pos, why, head as int),
            forall|k: int| 0 <= k < first@.len() ==> seen@[#[trigger] first@[k] as int],
        decreases unmarked_count(seen@) + (out@.len() - head),
    {
        let cur = out[head];
        assert(cur < n);
        let ghost out0 = out@;
        match &graph[cur] {
            None => {
                assert(g[cur as int] is None);
            },
            Some(es) => {
                assert(g[cur as int] == Some(es@));
                let res2 = enqueue(es, &mut seen, &mut out, Ghost(g), Ghost(root), Ghost(head as int), Ghost(pos), Ghost(why), Ghost(head as int));
                proof {
                    pos = res2@.0;
                    why = res2@.1;
                    assert forall|k: int| 0 <= k < first@.len() implies seen@[#[trigger] first@[k] as int] by {
                        assert(g[root as int]->0[k] == first@[k]);
                    }
                    assert(out@[head as int] == out0[head as int]);
                    assert forall|x: usize| #[trigger] imports(g, out@[head as int] as int, x) implies seen@[x as int] by {
                        let w = choose|w: int| 0 <= w < es@.len() && es@[w] == x;
                        assert(seen@[es@[w] as int]);
                    }
                }
            },
        }
        proof {
            assert forall|i: int, x: usize| 0 <= i < head + 1 && #[trigger] imports(g, out@[i] as int, x) implies seen@[x as int] by {
                if i == head {
                    assert(out@[head as int] == cur);
                }
            }
        }
        head = head + 1;
    }
    proof {
        let r = out@;
        assert forall|i: int, j: int| 0 <= i < j < r.len() implies r[i] != r[j] by {
            assert(pos[r[i] as int] == i);
            assert(pos[r[j] as int] == j);
        }
        assert forall|i: int| 0 <= i < r.len() implies imports(g, root as int, #[trigger] r[i])
            || exists|m: int| 0 <= m < i && imports(g, r[m] as int, r[i]) by {
            if why[i] != -1 {
                let m = why[i];
                assert(0 <= m < i && imports(g, r[m] as int, r[i]));
            }
        }
        assert forall|x: usize| imports(g, root as int, x) implies x == root || r.contains(x) by {
            let w = choose|w: int| 0 <= w < first@.len() && first@[w] == x;
            assert(seen@[first@[w] as int]);
            assert(x < n);
            if x != root {
                assert(r[pos[x as int]] == x);
            }
        }
        assert forall|i: int, x: usize| 0 <= i < r.len() && #[trigger] imports(g, r[i] as int, x) implies x == root || r.contains(x) by {
            assert(seen@[x as int]);
            assert(r[i] < n);
            let es = g[r[i] as int]->0;
            let w = choose|w: int| 0 <= w < es.len() && es[w] == x;
            assert(x < n);
            if x != root {
                assert(r[pos[x as int]] == x);
            }
        }
    }
    Ok(out)
}


/// `root`, and its position, when it is in `files`.
pub open spec fn root_index(files: Seq<FileImports>, root: Seq<char>) -> int {
    file_index(files, root, 0)
}

/// Return the paths of every file reachable from `root` through `use`
/// imports, however deep the imports go.
///
/// Imports are resolved relative to the directory of the file they are
/// written in. Imports of files that don't exist are skipped, and each file
/// is listed once, which also breaks import loops.
///
/// Fails when `root` can't be read.
pub fn referenced_files(files: &Vec<FileImports>, root: &str) -> (r: Result<Vec<String>, String>)
    ensures
        r is Err <==> (root_index(files@, root@) == files@.len() || files@[root_index(files@, root@)].uses is None),
        r matches Ok(v) ==> exists|ix: Seq<usize>|
            #[trigger] is_reference_list(spec_edges(files@), root_index(files@, root@) as usize, ix)
            && v@.len() == ix.len()
            && forall|k: int| 0 <= k < ix.len() ==> #[trigger] v@[k]@ == files@[ix[k] as int].path@,
{
    let mut msg = String::new();
    msg.append("cannot read ");
    msg.append(root);
    let ri = match find_file(files, root) {
        None => return Err(msg),
        Some(i) => i,
    };
    let nf = files.len();
    let graph = import_graph(files);
    proof {
        assert(edges_view(graph@).len() == graph@.len());
        assert(graph@.len() == files@.len());
        lemma_edges_in_range(files@);
        assert(edges_view(graph@)[ri as int] is None <==> files@[ri as int].uses is None);
    }
    match reachable(&graph, ri) {
        Err(()) => Err(msg),
        Ok(ix) => {
            let mut v: Vec<String> = Vec::new();
            let mut k: usize = 0;
            while k < ix.len()
                invariant
                    0 <= k <= ix@.len(),
                    v@.len() == k,
                    forall|m: int| 0 <= m < ix@.len() ==> #[trigger] ix@[m] < files@.len(),
                    is_reference_list(edges_view(graph@), ri, ix@),
                    forall|m: int| 0 <= m < k ==> #[trigger] v@[m]@ == files@[ix@[m] as int].path@,
                decreases ix@.len() - k,
            {
                v.push(files[ix[k]].path.clone());
                k = k + 1;
            }
            proof {
                assert(ri as int == root_index(files@, root@));
                assert(is_reference_list(spec_edges(files@), root_index(files@, root@) as usize, ix@));
                assert(v@.len() == ix@.len());
            }
            Ok(v)
        },
    }
}

/// The imports among `decls[..k]` whose file isn't in `files`: the name of
/// each and the file it refers to.
pub open spec fn spec_missing(files: Seq<FileImports>, file: Seq<char>, decls: Seq<Node>, k: int) -> Seq<(Seq<char>, Seq<char>)>
    decreases k,
{
    if k <= 0 || k > decls.len() {
        Seq::empty()
    } else {
        spec_missing(files, file, decls, k - 1) + match spec_attr_scalar(decls[k - 1], seq_path()) {
            Some(p) => {
                let target = spec_import_target(file, p);
                if file_index(files, target, 0) < files.len() {
                    Seq::empty()
                } else {
                    match spec_name(decls[k - 1]) {
                        Some(name) => seq![(name, target)],
                        None => Seq::empty(),
                    }
                }
            },
            None => Seq::empty(),
        }
    }
}

/// Return the `use` imports of the file at `path` whose file doesn't exist,
/// as pairs of import name and the path it resolves to.
///
/// An import is checked whether or not anything inherits through it: it names
/// a file the workflow depends on either way.
pub fn missing_imports(root: &Root, path: &str, files: &Vec<FileImports>) -> (r: Vec<(String, String)>)
    ensures
        crate::ir::pairs_view(r@) == spec_missing(
            files@,
            path@,
            spec_root_items(root.node(), SyntaxKind::UseDecl),
            spec_root_items(root.node(), SyntaxKind::UseDecl).len() as int,
        ),
{
    let decls = root.use_decls();
    let ghost sd = spec_root_items(root.node(), SyntaxKind::UseDecl);
    let mut r: Vec<(String, String)> = Vec::new();
    let mut i: usize = 0;
    while i < decls.len()
        invariant
            0 <= i <= decls@.len(),
            decls@.len() == sd.len(),
            forall|j: int| 0 <= j < decls@.len() ==> #[trigger] decls@[j].node() == sd[j],
            crate::ir::pairs_view(r@) == spec_missing(files@, path@, sd, i as int),
        decreases decls@.len() - i,
    {
        let ghost before = crate::ir::pairs_view(r@);
        assert(decls@[i as int].node() == sd[i as int]);
        match decls[i].path() {
            Some(p) => {
                let target = import_target(path, p.as_str());
                match find_file(files, target.as_str()) {
                    Some(_) => {},
                    None => match decls[i].name() {
                        Some(name) => {
                            r.push((name, target));
                            assert(crate::ir::pairs_view(r@) =~= before + seq![crate::ir::pairs_view(r@).last()]);
                        },
                        None => {},
                    },
                }
            },
            None => {},
        }
        assert(crate::ir::pairs_view(r@) =~= spec_missing(files@, path@, sd, i + 1));
        i = i + 1;
    }
    r
}

// ─── ordering paths ──────────────────────────────────────────────────────────

/// The components of a path: the root `/` of an absolute path, then its
/// other components once `.` and `..` are applied.
pub open spec fn path_components(s: Seq<char>) -> Seq<Seq<char>> {
    (if crate::paths::is_absolute(s) { seq![seq!['/']] } else { Seq::empty() }) + norm_segs(split_on(s, '/'))
}

/// The rank of a component in the order of paths: the root, then `..`, then
/// ordinary names.
pub open spec fn component_rank(c: Seq<char>) -> int {
    if c == seq!['/'] {
        1
    } else if c == dot_dot() {
        3
    } else {
        4
    }
}

/// `a` comes before `b` character by character.
pub open spec fn chars_before(a: Seq<char>, b: Seq<char>) -> bool
    decreases a.len(),
{
    if a.len() == 0 {
        b.len() > 0
    } else if b.len() == 0 {
        false
    } else if (a[0] as u32) < (b[0] as u32) {
        true
    } else if a[0] == b[0] {
        chars_before(a.drop_first(), b.drop_first())
    } else {
        false
    }
}

pub open spec fn component_before(a: Seq<char>, b: Seq<char>) -> bool {
    component_rank(a) < component_rank(b) || (component_rank(a) == component_rank(b) && chars_before(a, b))
}

/// `a` comes before `b` component by component.
pub open spec fn components_before(a: Seq<Seq<char>>, b: Seq<Seq<char>>) -> bool
    decreases a.len(),
{
    if a.len() == 0 {
        b.len() > 0
    } else if b.len() == 0 {
        false
    } else if component_before(a[0], b[0]) {
        true
    } else if a[0] == b[0] {
        components_before(a.drop_first(), b.drop_first())
    } else {
        false
    }
}

/// Path `a` sorts before path `b`.
pub open spec fn path_before(a: Seq<char>, b: Seq<char>) -> bool {
    components_before(path_components(a), path_components(b))
}

fn chars_before_exec(a: &Vec<char>, b: &Vec<char>) -> (r: bool)
    ensures
        r == chars_before(a@, b@),
{
    let mut i: usize = 0;
    assert(a@.skip(0) =~= a@);
    assert(b@.skip(0) =~= b@);
    while i < a.len() && i < b.len() && a[i] == b[i]
        invariant
            0 <= i <= a@.len(),
            i <= b@.len(),
            chars_before(a@, b@) == chars_before(a@.skip(i as int), b@.skip(i as int)),
        decreases a@.len() - i,
    {
        assert(a@.skip(i as int).drop_first() =~= a@.skip(i + 1));
        assert(b@.skip(i as int).drop_first() =~= b@.skip(i + 1));
        i = i + 1;
    }
    assert(a@.skip(i as int).len() == a@.len() - i);
    assert(b@.skip(i as int).len() == b@.len() - i);
    if i == a.len() {
        i < b.len()
    } else if i == b.len() {
        false
    } else {
        assert(a@.skip(i as int)[0] == a@[i as int]);
        assert(b@.skip(i as int)[0] == b@[i as int]);
        (a[i] as u32) < (b[i] as u32)
    }
}

fn rank_of(c: &Vec<char>) -> (r: u8)
    ensures
        r as int == component_rank(c@),
{
    let root: Vec<char> = vec!['/'];
    let up: Vec<char> = vec!['.', '.'];
    assert(root@ =~= seq!['/']);
    assert(up@ =~= dot_dot());
    if seq_eq(c, &root) {
        1
    } else if seq_eq(c, &up) {
        3
    } else {
        4
    }
}

fn components_of(s: &str) -> (r: Vec<Vec<char>>)
    ensures
        r@.map_values(|v: Vec<char>| v@) == path_components(s@),
{
    let cs = chars_of(s);
    let rest = norm_components(&cs);
    let mut r: Vec<Vec<char>> = Vec::new();
    if cs.len() > 0 && cs[0] == '/' {
        let root: Vec<char> = vec!['/'];
        assert(root@ =~= seq!['/']);
        r.push(root);
    }
    let ghost head = r@.map_values(|v: Vec<char>| v@);
    assert(head =~= (if crate::paths::is_absolute(s@) { seq![seq!['/']] } else { Seq::<Seq<char>>::empty() }));
    let ghost rv = rest@.map_values(|v: Vec<char>| v@);
    let mut k: usize = 0;
    while k < rest.len()
        invariant
            0 <= k <= rest@.len(),
            rv == rest@.map_values(|v: Vec<char>| v@),
            r@.map_values(|v: Vec<char>| v@) == head + rv.take(k as int),
        decreases rest@.len() - k,
    {
        let piece = crate::paths::clone_chars(&rest[k]);
        let ghost before = r@.map_values(|v: Vec<char>| v@);
        r.push(piece);
        assert(r@.map_values(|v: Vec<char>| v@) =~= before.push(rv[k as int]));
        assert(rv.take(k + 1) =~= rv.take(k as int).push(rv[k as int]));
        k = k + 1;
    }
    assert(rv.take(rv.len() as int) =~= rv);
    r
}

/// `true` if path `a` sorts before path `b`, component by component.
pub fn path_less(a: &str, b: &str) -> (r: bool)
    ensures
        r == path_before(a@, b@),
{
    let x = components_of(a);
    let y = components_of(b);
    let ghost xv = x@.map_values(|v: Vec<char>| v@);
    let ghost yv = y@.map_values(|v: Vec<char>| v@);
    let mut i: usize = 0;
    assert(xv.skip(0) =~= xv);
    assert(yv.skip(0) =~= yv);
    while i < x.len() && i < y.len() && seq_eq(&x[i], &y[i])
        invariant
            0 <= i <= x@.len(),
            i <= y@.len(),
            xv == x@.map_values(|v: Vec<char>| v@),
            yv == y@.map_values(|v: Vec<char>| v@),
            components_before(xv, yv) == components_before(xv.skip(i as int), yv.skip(i as int)),
        decreases x@.len() - i,
    {
        assert(xv.skip(i as int).drop_first() =~= xv.skip(i + 1));
        assert(yv.skip(i as int).drop_first() =~= yv.skip(i + 1));
        assert(xv[i as int] == yv[i as int]);
        assert(!component_before(xv[i as int], yv[i as int])) by {
            lemma_chars_before_irreflexive(xv[i as int]);
        }
        i = i + 1;
    }
    if i == x.len() {
        i < y.len()
    } else if i == y.len() {
        false
    } else {
        assert(xv.skip(i as int)[0] == xv[i as int]);
        assert(yv.skip(i as int)[0] == yv[i as int]);
        let rx = rank_of(&x[i]);
        let ry = rank_of(&y[i]);
        rx < ry || (rx == ry && chars_before_exec(&x[i], &y[i]))
    }
}

proof fn lemma_chars_before_irreflexive(a: Seq<char>)
    ensures
        !chars_before(a, a),
    decreases a.len(),
{
    if a.len() > 0 {
        lemma_chars_before_irreflexive(a.drop_first());
    }
}


// ─── import loops ────────────────────────────────────────────────────────────

/// `c` is a chain of imports from `start` back to `start`.
pub open spec fn is_import_loop(g: Seq<Option<Seq<usize>>>, start: usize, c: Seq<usize>) -> bool {
    &&& c.len() >= 2
    &&& c[0] == start
    &&& c.last() == start
    &&& forall|k: int| 0 <= k < c.len() ==> #[trigger] c[k] < g.len()
    &&& forall|k: int| 0 <= k < c.len() - 1 ==> imports(g, #[trigger] c[k] as int, c[k + 1])
}

/// `c` is a chain of imports from `start` to its last file.
pub open spec fn is_import_path(g: Seq<Option<Seq<usize>>>, start: usize, c: Seq<usize>) -> bool {
    &&& c.len() >= 1
    &&& c[0] == start
    &&& forall|k: int| 0 <= k < c.len() ==> #[trigger] c[k] < g.len()
    &&& forall|k: int| 0 <= k < c.len() - 1 ==> imports(g, #[trigger] c[k] as int, c[k + 1])
}

pub open spec fn all_loops(g: Seq<Option<Seq<usize>>>, start: usize, ls: Seq<Vec<usize>>) -> bool {
    forall|i: int| 0 <= i < ls.len() ==> is_import_loop(g, start, #[trigger] ls[i]@)
}

fn clone_indices(v: &Vec<usize>) -> (r: Vec<usize>)
    ensures
        r@ == v@,
{
    let mut r: Vec<usize> = Vec::new();
    let mut i: usize = 0;
    while i < v.len()
        invariant
            0 <= i <= v@.len(),
            r@ == v@.take(i as int),
        decreases v@.len() - i,
    {
        r.push(v[i]);
        i = i + 1;
        assert(r@ =~= v@.take(i as int));
    }
    assert(v@.take(v@.len() as int) =~= v@);
    r
}

/// Every import of `current`, and of each file first marked between `before`
/// and `after`, is marked in `after`; and `found` holds if one of them
/// imports `start`.
pub open spec fn walked(g: Seq<Option<Seq<usize>>>, start: usize, current: int, before: Seq<bool>, after: Seq<bool>, found: bool) -> bool {
    forall|u: int, v: usize|
        (u == current || (after[u] && !before[u])) && #[trigger] imports(g, u, v)
            ==> after[v as int] && (v == start ==> found)
}

pub open spec fn marks_kept(a: Seq<bool>, b: Seq<bool>) -> bool {
    forall|i: int| 0 <= i < a.len() && a[i] ==> #[trigger] b[i]
}

/// The chains as plain values.
pub open spec fn chains_view(ls: Seq<Vec<usize>>) -> Seq<Seq<usize>> {
    ls.map_values(|c: Vec<usize>| c@)
}

/// The search from `current`, the end of `chain`, with `v` the files
/// entered so far: each import in order either closes a loop back to
/// `start`, recorded as the chain it ends, is skipped when entered already,
/// or is entered and searched in turn.
pub open spec fn walk_spec(g: Seq<Option<Seq<usize>>>, start: usize, chain: Seq<usize>, v: Seq<bool>, current: int) -> (
    Seq<bool>,
    Seq<Seq<usize>>,
)
    decreases unmarked_count(v), 1nat, 0int,
{
    if !(0 <= current < g.len()) {
        (v, Seq::empty())
    } else {
        match g[current] {
            None => (v, Seq::empty()),
            Some(es) => walk_edges(g, start, chain, v, es, es.len() as int),
        }
    }
}

/// Following the first `p` of the imports `es` of the end of `chain`.
pub open spec fn walk_edges(g: Seq<Option<Seq<usize>>>, start: usize, chain: Seq<usize>, v: Seq<bool>, es: Seq<usize>, p: int) -> (
    Seq<bool>,
    Seq<Seq<usize>>,
)
    decreases unmarked_count(v), 0nat, p,
{
    if p <= 0 || p > es.len() {
        (v, Seq::empty())
    } else {
        let (v1, l1) = walk_edges(g, start, chain, v, es, p - 1);
        let x = es[p - 1];
        if unmarked_count(v1) > unmarked_count(v) {
            (v1, l1)
        } else if x == start {
            (v1, l1.push(chain.push(x)))
        } else if x >= v1.len() || v1[x as int] {
            (v1, l1)
        } else {
            let v2 = v1.update(x as int, true);
            proof {
                lemma_mark(v1, x as int);
            }
            let (v3, l3) = walk_spec(g, start, chain.push(x), v2, x as int);
            (v3, l1 + l3)
        }
    }
}

/// Follow the imports of `current`, the end of `chain`, recording each chain
/// that comes back to `start`; each file other than `start` is entered once.
fn walk(
    graph: &Vec<Option<Vec<usize>>>,
    current: usize,
    start: usize,
    chain: &mut Vec<usize>,
    visited: &mut Vec<bool>,
    loops: &mut Vec<Vec<usize>>,
)
    requires
        edges_in_range(edges_view(graph@)),
        old(visited)@.len() == graph@.len(),
        is_import_path(edges_view(graph@), start, old(chain)@),
        old(chain)@.last() == current,
        all_loops(edges_view(graph@), start, old(loops)@),
        start < old(visited)@.len(),
        old(visited)@[start as int],
        old(visited)@[current as int],
    ensures
        final(chain)@ == old(chain)@,
        final(visited)@.len() == old(visited)@.len(),
        unmarked_count(final(visited)@) <= unmarked_count(old(visited)@),
        all_loops(edges_view(graph@), start, final(loops)@),
        marks_kept(old(visited)@, final(visited)@),
        final(loops)@.len() >= old(loops)@.len(),
        walked(edges_view(graph@), start, current as int, old(visited)@, final(visited)@, final(loops)@.len() > 0),
        forall|i: int| 0 <= i < old(loops)@.len() ==> #[trigger] final(loops)@[i] == old(loops)@[i],
        (final(visited)@, chains_view(final(loops)@).subrange(old(loops)@.len() as int, final(loops)@.len() as int)) == walk_spec(
            edges_view(graph@),
            start,
            old(chain)@,
            old(visited)@,
            current as int,
        ),
    decreases unmarked_count(old(visited)@),
{
    let ghost g = edges_view(graph@);
    let ghost chain0 = chain@;
    let ghost count0 = unmarked_count(visited@);
    let ghost l0 = loops@;
    assert(chains_view(loops@).subrange(l0.len() as int, l0.len() as int) =~= Seq::<Seq<usize>>::empty());
    let es = match &graph[current] {
        None => {
            assert(g[current as int] is None);
            return;
        },
        Some(es) => es,
    };
    assert(g[current as int] == Some(es@));
    let mut p: usize = 0;
    while p < es.len()
        invariant
            0 <= p <= es@.len(),
            g == edges_view(graph@),
            g[current as int] == Some(es@),
            edges_in_range(g),
            visited@.len() == graph@.len(),
            chain@ == chain0,
            is_import_path(g, start, chain0),
            chain0.last() == current,
            unmarked_count(visited@) <= count0,
            count0 == unmarked_count(old(visited)@),
            all_loops(g, start, loops@),
            start < old(visited)@.len(),
            old(visited)@.len() == graph@.len(),
            old(visited)@[start as int],
            marks_kept(old(visited)@, visited@),
            loops@.len() >= old(loops)@.len(),
            forall|u: int, v: usize| (visited@[u] && !old(visited)@[u]) && #[trigger] imports(g, u, v)
                ==> visited@[v as int] && (v == start ==> loops@.len() > 0),
            forall|q: int| 0 <= q < p ==> visited@[#[trigger] es@[q] as int] && (es@[q] == start ==> loops@.len() > 0),
            l0 == old(loops)@,
            forall|i: int| 0 <= i < l0.len() ==> #[trigger] loops@[i] == l0[i],
            (visited@, chains_view(loops@).subrange(l0.len() as int, loops@.len() as int)) == walk_edges(
                g,
                start,
                chain0,
                old(visited)@,
                es@,
                p as int,
            ),
        decreases es@.len() - p,
    {
        let imported = es[p];
        let ghost vb = visited@;
        let ghost lb = loops@;
        assert(g[current as int]->0[p as int] == imported);
        assert(imports(g, current as int, imported)) by {
            assert(es@.contains(imported));
        }
        if imported == start {
            let mut found = clone_indices(chain);
            found.push(imported);
            proof {
                assert forall|k: int| 0 <= k < found@.len() - 1 implies imports(g, #[trigger] found@[k] as int, found@[k + 1]) by {
                    if k < found@.len() - 2 {
                        assert(found@[k] == chain0[k] && found@[k + 1] == chain0[k + 1]);
                    } else {
                        assert(found@[k] == current);
                    }
                }
                assert forall|k: int| 0 <= k < found@.len() implies #[trigger] found@[k] < g.len() by {
                    if k < found@.len() - 1 {
                        assert(found@[k] == chain0[k]);
                    }
                }
            }
            let ghost loops0 = loops@;
            loops.push(found);
            proof {
                assert(found@ == chain0.push(imported));
                assert forall|i: int| 0 <= i < l0.len() implies #[trigger] loops@[i] == l0[i] by {
                    assert(loops@[i] == loops0[i]);
                }
                assert(chains_view(loops@).subrange(l0.len() as int, loops@.len() as int) =~= chains_view(lb).subrange(
                    l0.len() as int,
                    lb.len() as int,
                ).push(found@));
                assert forall|i: int| 0 <= i < loops@.len() implies is_import_loop(g, start, #[trigger] loops@[i]@) by {
                    if i < loops0.len() {
                        assert(loops@[i] == loops0[i]);
                    }
                }
                assert(visited@[start as int]);
            }
        } else if !visited[imported] {
            let ghost v1 = visited@;
            let ghost l1 = loops@.len();
            proof {
                lemma_mark(v1, imported as int);
                assert(imported < g.len());
            }
            visited.set(imported, true);
            let ghost v2 = visited@;
            chain.push(imported);
            proof {
                assert forall|k: int| 0 <= k < chain@.len() - 1 implies imports(g, #[trigger] chain@[k] as int, chain@[k + 1]) by {
                    if k < chain@.len() - 2 {
                        assert(chain@[k] == chain0[k] && chain@[k + 1] == chain0[k + 1]);
                    } else {
                        assert(chain@[k] == current);
                    }
                }
                assert forall|k: int| 0 <= k < chain@.len() implies #[trigger] chain@[k] < g.len() by {
                    if k < chain@.len() - 1 {
                        assert(chain@[k] == chain0[k]);
                    }
                }
            }
            let ghost lm = loops@;
            walk(graph, imported, start, chain, visited, loops);
            proof {
                let a = chains_view(lb);
                let b = chains_view(loops@);
                assert(b.subrange(l0.len() as int, loops@.len() as int) =~= a.subrange(l0.len() as int, lb.len() as int) + b.subrange(
                    lb.len() as int,
                    loops@.len() as int,
                )) by {
                    assert forall|i: int| 0 <= i < lb.len() implies #[trigger] b[i] == a[i] by {
                        assert(lm == lb);
                        assert(loops@[i] == lm[i]);
                    }
                }
                assert(v2 == vb.update(imported as int, true));
                assert forall|i: int| 0 <= i < l0.len() implies #[trigger] loops@[i] == l0[i] by {
                    assert(loops@[i] == lm[i]);
                }
            }
            chain.pop();
            assert(chain@ =~= chain0);
            proof {
                assert forall|i: int| 0 <= i < old(visited)@.len() && old(visited)@[i] implies #[trigger] visited@[i] by {
                    assert(v1[i]);
                    assert(v2[i]);
                }
                assert forall|u: int, v: usize| (visited@[u] && !old(visited)@[u]) && #[trigger] imports(g, u, v)
                    implies visited@[v as int] && (v == start ==> loops@.len() > 0) by {
                    if v1[u] {
                        assert(v1[v as int] && (v == start ==> l1 > 0));
                        assert(v2[v as int]);
                    } else if u == imported {
                    } else {
                        assert(!v2[u]);
                    }
                }
                assert forall|q: int| 0 <= q < p + 1 implies visited@[#[trigger] es@[q] as int] && (es@[q] == start ==> loops@.len() > 0) by {
                    if q < p {
                        assert(v1[es@[q] as int]);
                        assert(v2[es@[q] as int]);
                    } else {
                        assert(v2[imported as int]);
                    }
                }
            }
        } else {
            proof {
                assert forall|q: int| 0 <= q < p + 1 implies visited@[#[trigger] es@[q] as int] && (es@[q] == start ==> loops@.len() > 0) by {
                    if q == p {
                        assert(es@[q] == imported);
                    }
                }
            }
        }
        p = p + 1;
    }
    proof {
        assert forall|u: int, v: usize| (u == current || (visited@[u] && !old(visited)@[u])) && #[trigger] imports(g, u, v)
            implies visited@[v as int] && (v == start ==> loops@.len() > 0) by {
            if u == current as int {
                let q = choose|q: int| 0 <= q < es@.len() && es@[q] == v;
                assert(visited@[es@[q] as int]);
            }
        }
    }
}

/// No loop through the file at `path` runs through a file that comes before
/// it by path.
pub open spec fn first_on_its_loops(files: Seq<FileImports>, path: Seq<char>) -> bool {
    forall|c: Seq<usize>, k: int|
        is_import_loop(spec_edges(files), root_index(files, path) as usize, c) && 0 <= k < c.len()
            ==> !path_before(#[trigger] files[c[k] as int].path@, path)
}

/// A search from `start` that marked only `start` beforehand marks every
/// file along an import chain from `start`.
proof fn lemma_chain_marked(g: Seq<Option<Seq<usize>>>, start: usize, before: Seq<bool>, after: Seq<bool>, found: bool, c: Seq<usize>, k: int)
    requires
        walked(g, start, start as int, before, after, found),
        before.len() == g.len(),
        after.len() == g.len(),
        forall|j: int| 0 <= j < before.len() ==> #[trigger] before[j] == (j == start),
        marks_kept(before, after),
        start < g.len(),
        is_import_path(g, start, c),
        0 <= k < c.len(),
    ensures
        after[c[k] as int],
    decreases k,
{
    if k == 0 {
        assert(before[start as int]);
    } else {
        lemma_chain_marked(g, start, before, after, found, c, k - 1);
        assert(imports(g, c[k - 1] as int, c[k]));
        assert(before[c[k - 1] as int] == (c[k - 1] == start));
    }
}

/// The search from `start` finds a loop when there is one.
proof fn lemma_loop_found(g: Seq<Option<Seq<usize>>>, start: usize, before: Seq<bool>, after: Seq<bool>, found: bool, c: Seq<usize>)
    requires
        walked(g, start, start as int, before, after, found),
        before.len() == g.len(),
        after.len() == g.len(),
        forall|j: int| 0 <= j < before.len() ==> #[trigger] before[j] == (j == start),
        marks_kept(before, after),
        start < g.len(),
        is_import_loop(g, start, c),
    ensures
        found,
{
    let n = c.len() as int;
    assert(is_import_path(g, start, c));
    lemma_chain_marked(g, start, before, after, found, c, n - 2);
    assert(imports(g, c[n - 2] as int, c[n - 1]));
    assert(before[c[n - 2] as int] == (c[n - 2] == start));
}

/// `names` are the paths of the files along `c`, a loop from `path` back to
/// it in which no file comes before `path`.
pub open spec fn loop_names(files: Seq<FileImports>, path: Seq<char>, c: Seq<usize>, names: Seq<String>) -> bool {
    &&& is_import_loop(spec_edges(files), root_index(files, path) as usize, c)
    &&& c.len() == names.len()
    &&& forall|k: int| 0 <= k < c.len() ==> #[trigger] names[k]@ == files[c[k] as int].path@
    &&& forall|k: int| 0 <= k < c.len() ==> !path_before(#[trigger] files[c[k] as int].path@, path)
}

/// `names` are the paths along a loop that the file at `path` reports.
pub open spec fn reported_loop(files: Seq<FileImports>, path: Seq<char>, names: Seq<String>) -> bool {
    exists|c: Seq<usize>| #[trigger] loop_names(files, path, c, names)
}

/// The paths of the files along `c`.
pub open spec fn chain_paths(files: Seq<FileImports>, c: Seq<usize>) -> Seq<Seq<char>> {
    c.map_values(|x: usize| files[x as int].path@)
}

/// No file along `c` comes before `path`, which then reports it.
pub open spec fn reported_by(files: Seq<FileImports>, path: Seq<char>, c: Seq<usize>) -> bool {
    forall|q: int| 0 <= q < c.len() ==> !path_before(#[trigger] files[c[q] as int].path@, path)
}

proof fn lemma_chars_total(a: Seq<char>, b: Seq<char>)
    requires
        a != b,
    ensures
        chars_before(a, b) || chars_before(b, a),
    decreases a.len(),
{
    if a.len() == 0 && b.len() == 0 {
        assert(a =~= b);
    } else if a.len() > 0 && b.len() > 0 {
        if a[0] == b[0] {
            assert(a =~= seq![a[0]] + a.drop_first());
            assert(b =~= seq![b[0]] + b.drop_first());
            lemma_chars_total(a.drop_first(), b.drop_first());
        } else {
            vstd::utf8::char_u32_cast(a[0], a[0] as u32);
            vstd::utf8::char_u32_cast(b[0], b[0] as u32);
        }
    }
}

proof fn lemma_components_total(a: Seq<Seq<char>>, b: Seq<Seq<char>>)
    requires
        a != b,
    ensures
        components_before(a, b) || components_before(b, a),
    decreases a.len(),
{
    if a.len() == 0 && b.len() == 0 {
        assert(a =~= b);
    } else if a.len() > 0 && b.len() > 0 {
        if a[0] == b[0] {
            assert(a =~= seq![a[0]] + a.drop_first());
            assert(b =~= seq![b[0]] + b.drop_first());
            lemma_components_total(a.drop_first(), b.drop_first());
        } else if component_rank(a[0]) == component_rank(b[0]) {
            lemma_chars_total(a[0], b[0]);
        }
    }
}

/// A loop is reported by one of the files along it at most: two files
/// along it that both report it have the same path, component by component.
pub proof fn lemma_loop_reported_once(files: Seq<FileImports>, c: Seq<usize>, a: int, b: int)
    requires
        0 <= a < c.len(),
        0 <= b < c.len(),
        c[a] < files.len(),
        c[b] < files.len(),
        reported_by(files, files[c[a] as int].path@, c),
        reported_by(files, files[c[b] as int].path@, c),
    ensures
        path_components(files[c[a] as int].path@) == path_components(files[c[b] as int].path@),
{
    let pa = files[c[a] as int].path@;
    let pb = files[c[b] as int].path@;
    assert(!path_before(files[c[b] as int].path@, pa));
    assert(!path_before(files[c[a] as int].path@, pb));
    if path_components(pa) != path_components(pb) {
        lemma_components_total(path_components(pa), path_components(pb));
    }
}

/// The paths along those of the first `k` loops `ls` that `path` reports.
pub open spec fn kept_loops(files: Seq<FileImports>, path: Seq<char>, ls: Seq<Seq<usize>>, k: int) -> Seq<Seq<Seq<char>>>
    decreases k,
{
    if k <= 0 || k > ls.len() {
        Seq::empty()
    } else {
        kept_loops(files, path, ls, k - 1) + if reported_by(files, path, ls[k - 1]) {
            seq![chain_paths(files, ls[k - 1])]
        } else {
            Seq::empty()
        }
    }
}

/// The loops the file at `path` reports: those the search from it finds, in
/// the order it finds them, that run through no file before it.
pub open spec fn spec_import_loops(files: Seq<FileImports>, path: Seq<char>) -> Seq<Seq<Seq<char>>> {
    let si = root_index(files, path);
    if si < 0 || si >= files.len() {
        Seq::empty()
    } else {
        let ls = walk_spec(spec_edges(files), si as usize, seq![si as usize], Seq::new(files.len(), |j: int| j == si), si).1;
        kept_loops(files, path, ls, ls.len() as int)
    }
}

/// The loops as plain values.
pub open spec fn loops_view(r: Seq<Vec<String>>) -> Seq<Seq<Seq<char>>> {
    r.map_values(|v: Vec<String>| v@.map_values(|s: String| s@))
}

/// Return the import loops that the file at `path` is responsible for
/// reporting.
///
/// Each loop is the chain of files that closes it, starting and ending at
/// `path`, e.g. `[workflow.ci, shared.ci, workflow.ci]`. Every file in a loop
/// can see it, so a loop is reported by just one of them, the first by path,
/// and the others stay quiet.
pub fn import_loops(files: &Vec<FileImports>, path: &str) -> (r: Vec<Vec<String>>)
    ensures
        root_index(files@, path@) == files@.len() ==> r@.len() == 0,
        forall|i: int| 0 <= i < r@.len() ==> reported_loop(files@, path@, #[trigger] r@[i]@),
        (exists|c: Seq<usize>| #[trigger] is_import_loop(spec_edges(files@), root_index(files@, path@) as usize, c))
            && first_on_its_loops(files@, path@) ==> r@.len() > 0,
        loops_view(r@) == spec_import_loops(files@, path@),
{
    let mut result: Vec<Vec<String>> = Vec::new();
    let si = match find_file(files, path) {
        None => {
            let count = files.len();
            proof {
                if exists|c: Seq<usize>| #[trigger] is_import_loop(spec_edges(files@), root_index(files@, path@) as usize, c) {
                    assert(count == files@.len());
                    let c = choose|c: Seq<usize>| #[trigger] is_import_loop(spec_edges(files@), root_index(files@, path@) as usize, c);
                    assert(root_index(files@, path@) == files@.len());
                    assert(spec_edges(files@).len() == files@.len());
                    assert(c[0] == files@.len());
                    assert(c[0] < spec_edges(files@).len());
                }
            }
            return result;
        },
        Some(i) => i,
    };
    let nf = files.len();
    let graph = import_graph(files);
    let ghost g = edges_view(graph@);
    proof {
        assert(edges_view(graph@).len() == graph@.len());
        lemma_edges_in_range(files@);
        lemma_file_index(files@, path@, 0);
    }
    let mut visited: Vec<bool> = Vec::new();
    let mut k: usize = 0;
    while k < nf
        invariant
            0 <= k <= nf,
            nf == files@.len(),
            visited@.len() == k,
            forall|j: int| 0 <= j < k ==> #[trigger] visited@[j] == (j == si),
        decreases nf - k,
    {
        visited.push(k == si);
        k = k + 1;
    }
    let mut chain: Vec<usize> = Vec::new();
    chain.push(si);
    let mut loops: Vec<Vec<usize>> = Vec::new();
    let ghost before = visited@;
    proof {
        assert(before =~= Seq::new(files@.len(), |j: int| j == si as int));
        assert(chain@ =~= seq![si]);
    }
    walk(&graph, si, si, &mut chain, &mut visited, &mut loops);
    let ghost ls = chains_view(loops@);
    proof {
        assert(chains_view(loops@).subrange(0, loops@.len() as int) =~= ls);
        assert(ls == walk_spec(spec_edges(files@), si, seq![si], before, si as int).1);
        assert(loops_view(result@) =~= Seq::<Seq<Seq<char>>>::empty());
        if exists|c: Seq<usize>| #[trigger] is_import_loop(spec_edges(files@), root_index(files@, path@) as usize, c) {
            let c = choose|c: Seq<usize>| #[trigger] is_import_loop(spec_edges(files@), root_index(files@, path@) as usize, c);
            lemma_loop_found(g, si, before, visited@, loops@.len() > 0, c);
        }
    }
    let ghost has_loop = exists|c: Seq<usize>| #[trigger] is_import_loop(spec_edges(files@), root_index(files@, path@) as usize, c);
    let mut i: usize = 0;
    while i < loops.len()
        invariant
            0 <= i <= loops@.len(),
            has_loop ==> loops@.len() > 0,
            first_on_its_loops(files@, path@) ==> result@.len() == i,
            g == edges_view(graph@),
            g == spec_edges(files@),
            si as int == root_index(files@, path@),
            files@[si as int].path@ == path@,
            all_loops(g, si, loops@),
            forall|j: int| 0 <= j < result@.len() ==> reported_loop(files@, path@, #[trigger] result@[j]@),
            ls == chains_view(loops@),
            loops_view(result@) == kept_loops(files@, path@, ls, i as int),
        decreases loops@.len() - i,
    {
        let c = &loops[i];
        assert(ls[i as int] == c@);
        assert(is_import_loop(g, si, c@));
        let mut keep = true;
        let mut names: Vec<String> = Vec::new();
        let mut m: usize = 0;
        while m < c.len()
            invariant
                0 <= m <= c@.len(),
                is_import_loop(g, si, c@),
                g == spec_edges(files@),
                files@[si as int].path@ == path@,
                names@.len() == m,
                forall|q: int| 0 <= q < m ==> #[trigger] names@[q]@ == files@[c@[q] as int].path@,
                keep ==> forall|q: int| 0 <= q < m ==> !path_before(#[trigger] files@[c@[q] as int].path@, path@),
                first_on_its_loops(files@, path@) ==> keep,
                si as int == root_index(files@, path@),
                keep == forall|q: int| 0 <= q < m ==> !path_before(#[trigger] files@[c@[q] as int].path@, path@),
            decreases c@.len() - m,
        {
            assert(c@[m as int] < g.len());
            proof {
                if first_on_its_loops(files@, path@) {
                    assert(!path_before(files@[c@[m as int] as int].path@, path@));
                }
            }
            let f = &files[c[m]];
            if path_less(f.path.as_str(), path) {
                keep = false;
            }
            names.push(f.path.clone());
            m = m + 1;
        }
        proof {
            assert(names@.map_values(|s: String| s@) =~= chain_paths(files@, c@));
            assert(keep == reported_by(files@, path@, c@));
        }
        let ghost kept0 = loops_view(result@);
        if keep {
            let ghost res0 = result@;
            result.push(names);
            proof {
                assert(loops_view(result@) =~= kept0.push(chain_paths(files@, c@)));
                assert forall|j: int| 0 <= j < result@.len() implies reported_loop(files@, path@, #[trigger] result@[j]@) by {
                    if j < res0.len() {
                        assert(result@[j] == res0[j]);
                    } else {
                        assert(is_import_loop(spec_edges(files@), root_index(files@, path@) as usize, c@));
                        assert(loop_names(files@, path@, c@, names@));
                    }
                }
            }
        }
        proof {
            if !keep {
                assert(kept0 + Seq::<Seq<Seq<char>>>::empty() =~= kept0);
            }
        }
        i = i + 1;
    }
    result
}


// ─── gathering the files of a workspace ──────────────────────────────────────

/// The files the imports of `f` refer to, when it could be read.
pub open spec fn file_targets(f: FileImports) -> Seq<Seq<char>> {
    match f.uses {
        Some(u) => crate::ir::strs_view(u@).map_values(|x: Seq<char>| spec_import_target(f.path@, x)),
        None => Seq::empty(),
    }
}

/// The files the imports of each of `files` refer to, in order.
pub open spec fn all_targets(files: Seq<FileImports>) -> Seq<Seq<char>>
    decreases files.len(),
{
    if files.len() == 0 {
        Seq::empty()
    } else {
        all_targets(files.drop_last()) + file_targets(files.last())
    }
}

/// Those of `s` that aren't among `files`, each once, in the order of their
/// first occurrence.
pub open spec fn new_paths(s: Seq<Seq<char>>, files: Seq<FileImports>) -> Seq<Seq<char>>
    decreases s.len(),
{
    if s.len() == 0 {
        Seq::empty()
    } else {
        let rest = new_paths(s.drop_last(), files);
        if file_index(files, s.last(), 0) < files.len() || rest.contains(s.last()) {
            rest
        } else {
            rest.push(s.last())
        }
    }
}

/// The files that the imports of the readable files of `files` refer to and
/// that aren't among them yet, each once.
pub fn unknown_imports(files: &Vec<FileImports>) -> (r: Vec<String>)
    ensures
        crate::ir::strs_view(r@) == new_paths(all_targets(files@), files@),
{
    let mut r: Vec<String> = Vec::new();
    let mut f: usize = 0;
    assert(crate::ir::strs_view(r@) =~= Seq::empty());
    while f < files.len()
        invariant
            0 <= f <= files@.len(),
            crate::ir::strs_view(r@) == new_paths(all_targets(files@.take(f as int)), files@),
        decreases files@.len() - f,
    {
        assert(files@.take(f + 1).drop_last() =~= files@.take(f as int));
        let ghost before = all_targets(files@.take(f as int));
        match &files[f].uses {
            None => {
                assert(all_targets(files@.take(f + 1)) =~= before);
            },
            Some(uses) => {
                let ghost ft = file_targets(files@[f as int]);
                let mut k: usize = 0;
                while k < uses.len()
                    invariant
                        0 <= k <= uses@.len(),
                        f < files@.len(),
                        files@[f as int].uses == Some(*uses),
                        ft == file_targets(files@[f as int]),
                        ft.len() == uses@.len(),
                        crate::ir::strs_view(r@) == new_paths(before + ft.take(k as int), files@),
                    decreases uses@.len() - k,
                {
                    let ghost seq_k = before + ft.take(k as int);
                    assert(before + ft.take(k + 1) =~= seq_k.push(ft[k as int]));
                    assert((before + ft.take(k + 1)).drop_last() =~= seq_k);
                    let target = import_target(files[f].path.as_str(), uses[k].as_str());
                    assert(target@ == ft[k as int]);
                    let known = find_file(files, target.as_str()).is_some();
                    let seen = crate::text::contains_str(&r, target.as_str());
                    proof {
                        let rv = crate::ir::strs_view(r@);
                        if seen {
                            let j = choose|j: int| 0 <= j < r@.len() && #[trigger] r@[j]@ == target@;
                            assert(rv[j] == target@);
                        }
                        if rv.contains(target@) {
                            let j = choose|j: int| 0 <= j < rv.len() && rv[j] == target@;
                            assert(r@[j]@ == target@);
                        }
                    }
                    if !known && !seen {
                        let ghost r0 = crate::ir::strs_view(r@);
                        r.push(target);
                        assert(crate::ir::strs_view(r@) =~= r0.push(ft[k as int]));
                    }
                    k = k + 1;
                }
                assert(ft.take(ft.len() as int) =~= ft);
                assert(all_targets(files@.take(f + 1)) =~= before + ft);
            },
        }
        f = f + 1;
    }
    assert(files@.take(files@.len() as int) =~= files@);
    r
}

// ─── finding the workflow root ───────────────────────────────────────────────

/// Which of the two workflow files a directory holds.
pub struct DirProbe {
    pub dir: String,
    /// `workflow.ci` is there.
    pub primary: bool,
    /// `.workflow.ci` is there.
    pub hidden: bool,
}

/// A root workflow file, and whether a `.workflow.ci` beside it was ignored
/// in its favour.
pub struct FoundRoot {
    pub path: String,
    pub ignored_hidden: bool,
}

/// The root a directory with a workflow file gives: the file, and whether a
/// `.workflow.ci` beside it is ignored.
pub open spec fn found_in(p: DirProbe) -> (Seq<char>, bool) {
    (
        crate::paths::spec_join_path(p.dir@, if p.primary { "workflow.ci"@ } else { ".workflow.ci"@ }),
        p.primary && p.hidden,
    )
}

pub open spec fn has_file(p: DirProbe) -> bool {
    p.primary || p.hidden
}

pub open spec fn root_view(r: Result<FoundRoot, String>) -> Result<(Seq<char>, bool), Seq<char>> {
    match r {
        Ok(f) => Ok((f.path@, f.ignored_hidden)),
        Err(m) => Err(m@),
    }
}

/// What a directory gives as the workflow root.
pub open spec fn spec_find_in_dir(p: DirProbe) -> Result<(Seq<char>, bool), Seq<char>> {
    if has_file(p) {
        Ok(found_in(p))
    } else {
        Err("no workflow.ci found in "@ + p.dir@)
    }
}

/// The workflow file of a directory: `workflow.ci`, or `.workflow.ci` when it
/// is the only one.
pub fn find_in_dir(probe: &DirProbe) -> (r: Result<FoundRoot, String>)
    ensures
        root_view(r) == spec_find_in_dir(*probe),
{
    if probe.primary {
        Ok(FoundRoot { path: crate::paths::join_path(probe.dir.as_str(), "workflow.ci"), ignored_hidden: probe.hidden })
    } else if probe.hidden {
        Ok(FoundRoot { path: crate::paths::join_path(probe.dir.as_str(), ".workflow.ci"), ignored_hidden: false })
    } else {
        let mut m = String::new();
        m.append("no workflow.ci found in ");
        m.append(probe.dir.as_str());
        Err(m)
    }
}

/// The index of the first of `chain[i..]` that holds a workflow file, or
/// the length of `chain`.
pub open spec fn first_with_file(chain: Seq<DirProbe>, i: int) -> int
    decreases chain.len() - i,
{
    if i < 0 || i >= chain.len() {
        chain.len() as int
    } else if has_file(chain[i]) {
        i
    } else {
        first_with_file(chain, i + 1)
    }
}

/// The root found walking up from `start` through the directories `chain`.
pub open spec fn spec_discover(start: Seq<char>, chain: Seq<DirProbe>) -> Result<(Seq<char>, bool), Seq<char>> {
    let i = first_with_file(chain, 0);
    if i < chain.len() {
        Ok(found_in(chain[i]))
    } else {
        Err("no workflow.ci found in "@ + start + " or any parent directory"@)
    }
}

/// Walk up from `start`, whose directory and ancestors `chain` describes in
/// order, returning the first `workflow.ci` or `.workflow.ci` found.
pub fn discover_from(start: &str, chain: &Vec<DirProbe>) -> (r: Result<FoundRoot, String>)
    ensures
        root_view(r) == spec_discover(start@, chain@),
{
    let mut i: usize = 0;
    while i < chain.len()
        invariant
            0 <= i <= chain@.len(),
            first_with_file(chain@, 0) == first_with_file(chain@, i as int),
        decreases chain@.len() - i,
    {
        if chain[i].primary || chain[i].hidden {
            return find_in_dir(&chain[i]);
        }
        i = i + 1;
    }
    let mut m = String::new();
    m.append("no workflow.ci found in ");
    m.append(start);
    m.append(" or any parent directory");
    Err(m)
}

/// The root given by an explicit file, an explicit workspace directory, or
/// discovery from `start` up through `chain`; at most one of the first two.
pub open spec fn spec_resolve_root(
    file: Option<Seq<char>>,
    workspace: Option<DirProbe>,
    start: Seq<char>,
    chain: Seq<DirProbe>,
) -> Result<(Seq<char>, bool), Seq<char>> {
    match (file, workspace) {
        (Some(_), Some(_)) => Err("cannot specify both a workflow file and --workspace"@),
        (Some(f), None) => Ok((f, false)),
        (None, Some(d)) => spec_find_in_dir(d),
        (None, None) => spec_discover(start, chain),
    }
}

/// Resolve the workflow root file from an explicit file, an explicit
/// workspace directory, or discovery from `start` up through `chain`.
///
/// At most one of `file` and `workspace` may be given.
pub fn resolve_root(file: Option<&str>, workspace: Option<&DirProbe>, start: &str, chain: &Vec<DirProbe>) -> (r: Result<FoundRoot, String>)
    ensures
        root_view(r) == spec_resolve_root(
            match file {
                Some(f) => Some(f@),
                None => None,
            },
            match workspace {
                Some(d) => Some(*d),
                None => None,
            },
            start@,
            chain@,
        ),
{
    match (file, workspace) {
        (Some(_), Some(_)) => {
            let m = "cannot specify both a workflow file and --workspace".to_owned();
            Err(m)
        },
        (Some(f), None) => Ok(FoundRoot { path: f.to_owned(), ignored_hidden: false }),
        (None, Some(dir)) => find_in_dir(dir),
        (None, None) => discover_from(start, chain),
    }
}

} // verus!

use vstd::prelude::*;

use crate::dedent::{dedent, spec_dedent};
use crate::ir::{
    JobRef, clone_opt, clone_pairs, clone_refs, clone_strs, opt_view, pairs_view, refs_view, strs_view,
};
use crate::text::str_eq;

verus! {

// ─── named entries ───────────────────────────────────────────────────────────

/// Index of the first entry of `v` named `k`, or the number of entries.
pub open spec fn key_index(v: Seq<(Seq<char>, Seq<char>)>, k: Seq<char>, from: int) -> int
    decreases v.len() - from,
{
    if from < 0 || from >= v.len() {
        v.len() as int
    } else if v[from].0 == k {
        from
    } else {
        key_index(v, k, from + 1)
    }
}

pub proof fn lemma_key_index(v: Seq<(Seq<char>, Seq<char>)>, k: Seq<char>, from: int)
    requires
        0 <= from <= v.len(),
    ensures
        from <= key_index(v, k, from) <= v.len(),
        key_index(v, k, from) < v.len() ==> v[key_index(v, k, from)].0 == k,
        forall|i: int| from <= i < key_index(v, k, from) ==> v[i].0 != k,
    decreases v.len() - from,
{
    if from < v.len() && v[from].0 != k {
        lemma_key_index(v, k, from + 1);
    }
}

/// One entry laid over `base`: it replaces the value of the first entry of
/// the same name, or is added at the end.
pub open spec fn merge_one(base: Seq<(Seq<char>, Seq<char>)>, kv: (Seq<char>, Seq<char>)) -> Seq<(Seq<char>, Seq<char>)> {
    let i = key_index(base, kv.0, 0);
    if i < base.len() {
        base.update(i, (base[i].0, kv.1))
    } else {
        base.push(kv)
    }
}

/// `overlay` laid over `base`, entry by entry.
pub open spec fn spec_merge_pairs(base: Seq<(Seq<char>, Seq<char>)>, overlay: Seq<(Seq<char>, Seq<char>)>) -> Seq<(Seq<char>, Seq<char>)>
    decreases overlay.len(),
{
    if overlay.len() == 0 {
        base
    } else {
        merge_one(spec_merge_pairs(base, overlay.drop_last()), overlay.last())
    }
}

/// Position of the first entry named `key`.
pub fn find_key(v: &Vec<(String, String)>, key: &str) -> (r: Option<usize>)
    ensures
        r matches Some(i) ==> i == key_index(pairs_view(v@), key@, 0) && i < v@.len(),
        r is None ==> key_index(pairs_view(v@), key@, 0) == v@.len(),
{
    let ghost pv = pairs_view(v@);
    let mut i: usize = 0;
    while i < v.len()
        invariant
            0 <= i <= v@.len(),
            pv == pairs_view(v@),
            key_index(pv, key@, 0) == key_index(pv, key@, i as int),
        decreases v@.len() - i,
    {
        assert(pv[i as int].0 == v@[i as int].0@);
        if str_eq(v[i].0.as_str(), key) {
            return Some(i);
        }
        i = i + 1;
    }
    None
}

/// Merge two lists of named entries: overlay entries override same-named
/// base entries; base entries not present in the overlay are kept.
pub fn merge_variables(base: Vec<(String, String)>, overlay: Vec<(String, String)>) -> (r: Vec<(String, String)>)
    ensures
        pairs_view(r@) == spec_merge_pairs(pairs_view(base@), pairs_view(overlay@)),
{
    let mut result = base;
    let ghost ov = pairs_view(overlay@);
    let mut i: usize = 0;
    while i < overlay.len()
        invariant
            0 <= i <= overlay@.len(),
            ov == pairs_view(overlay@),
            pairs_view(result@) == spec_merge_pairs(pairs_view(base@), ov.take(i as int)),
        decreases overlay@.len() - i,
    {
        let ghost before = pairs_view(result@);
        assert(ov.take(i + 1).drop_last() =~= ov.take(i as int));
        assert(ov.take(i + 1).last() == ov[i as int]);
        let key = &overlay[i].0;
        let value = overlay[i].1.clone();
        match find_key(&result, key.as_str()) {
            Some(j) => {
                let k = result[j].0.clone();
                result.set(j, (k, value));
                assert(pairs_view(result@) =~= before.update(j as int, (before[j as int].0, ov[i as int].1)));
            },
            None => {
                result.push((key.clone(), value));
                assert(pairs_view(result@) =~= before.push(ov[i as int]));
            },
        }
        i = i + 1;
    }
    assert(ov.take(ov.len() as int) =~= ov);
    result
}

/// The entries of `vars` whose name isn't in `unset`.
pub open spec fn spec_without(vars: Seq<(Seq<char>, Seq<char>)>, unset: Seq<Seq<char>>) -> Seq<(Seq<char>, Seq<char>)>
    decreases vars.len(),
{
    if vars.len() == 0 {
        Seq::empty()
    } else {
        let rest = spec_without(vars.drop_last(), unset);
        if unset.contains(vars.last().0) {
            rest
        } else {
            rest.push(vars.last())
        }
    }
}

/// The entries of `vars` whose name isn't in `unset`.
pub fn without_unset(vars: &Vec<(String, String)>, unset: &Vec<String>) -> (r: Vec<(String, String)>)
    ensures
        pairs_view(r@) == spec_without(pairs_view(vars@), strs_view(unset@)),
{
    let ghost vv = pairs_view(vars@);
    let mut r: Vec<(String, String)> = Vec::new();
    let mut i: usize = 0;
    while i < vars.len()
        invariant
            0 <= i <= vars@.len(),
            vv == pairs_view(vars@),
            pairs_view(r@) == spec_without(vv.take(i as int), strs_view(unset@)),
        decreases vars@.len() - i,
    {
        assert(vv.take(i + 1).drop_last() =~= vv.take(i as int));
        assert(vv.take(i + 1).last() == vv[i as int]);
        let gone = crate::text::contains_str(unset, vars[i].0.as_str());
        proof {
            if gone {
                let j = choose|j: int| 0 <= j < unset@.len() && #[trigger] unset@[j]@ == vars@[i as int].0@;
                assert(strs_view(unset@)[j] == vv[i as int].0);
            } else {
                assert forall|j: int| 0 <= j < strs_view(unset@).len() implies strs_view(unset@)[j] != vv[i as int].0 by {
                    assert(strs_view(unset@)[j] == unset@[j]@);
                }
            }
        }
        if !gone {
            let ghost before = pairs_view(r@);
            r.push((vars[i].0.clone(), vars[i].1.clone()));
            assert(pairs_view(r@) =~= before.push(vv[i as int]));
        }
        i = i + 1;
    }
    assert(vv.take(vv.len() as int) =~= vv);
    r
}

// ─── template data ───────────────────────────────────────────────────────────

/// What a template contributes to whatever inherits it.
pub struct TemplateData {
    pub steps: Vec<(String, String)>,
    pub image: Option<String>,
    pub needs: Vec<JobRef>,
    pub artifacts: Vec<String>,
    pub env: Vec<String>,
    pub variables: Vec<(String, String)>,
    /// Variable names to remove from any base that this data is merged onto;
    /// always empty once inheritance is resolved.
    pub unset_variables: Vec<String>,
}

/// The contents of a `TemplateData`.
pub struct DataView {
    pub steps: Seq<(Seq<char>, Seq<char>)>,
    pub image: Option<Seq<char>>,
    pub needs: Seq<(Seq<char>, Seq<char>)>,
    pub artifacts: Seq<Seq<char>>,
    pub env: Seq<Seq<char>>,
    pub variables: Seq<(Seq<char>, Seq<char>)>,
    pub unset_variables: Seq<Seq<char>>,
}

impl TemplateData {
    pub open spec fn view(&self) -> DataView {
        DataView {
            steps: pairs_view(self.steps@),
            image: opt_view(self.image),
            needs: refs_view(self.needs@),
            artifacts: strs_view(self.artifacts@),
            env: strs_view(self.env@),
            variables: pairs_view(self.variables@),
            unset_variables: strs_view(self.unset_variables@),
        }
    }

    /// Nothing at all.
    pub fn empty() -> (r: TemplateData)
        ensures
            r@ == empty_data(),
    {
        let r = TemplateData {
            steps: Vec::new(),
            image: None,
            needs: Vec::new(),
            artifacts: Vec::new(),
            env: Vec::new(),
            variables: Vec::new(),
            unset_variables: Vec::new(),
        };
        assert(r@.steps =~= Seq::empty());
        assert(r@.needs =~= Seq::empty());
        assert(r@.artifacts =~= Seq::empty());
        assert(r@.env =~= Seq::empty());
        assert(r@.variables =~= Seq::empty());
        assert(r@.unset_variables =~= Seq::empty());
        r
    }

    pub fn copy(&self) -> (r: TemplateData)
        ensures
            r@ == self@,
    {
        TemplateData {
            steps: clone_pairs(&self.steps),
            image: clone_opt(&self.image),
            needs: clone_refs(&self.needs),
            artifacts: clone_strs(&self.artifacts),
            env: clone_strs(&self.env),
            variables: clone_pairs(&self.variables),
            unset_variables: clone_strs(&self.unset_variables),
        }
    }
}

pub open spec fn empty_data() -> DataView {
    DataView {
        steps: Seq::empty(),
        image: None,
        needs: Seq::empty(),
        artifacts: Seq::empty(),
        env: Seq::empty(),
        variables: Seq::empty(),
        unset_variables: Seq::empty(),
    }
}

/// `overlay` merged on top of `base`.
pub open spec fn spec_merge_data(base: DataView, overlay: DataView) -> DataView {
    DataView {
        steps: spec_merge_pairs(base.steps, overlay.steps),
        image: match overlay.image {
            Some(i) => Some(i),
            None => base.image,
        },
        needs: if overlay.needs.len() == 0 { base.needs } else { overlay.needs },
        artifacts: base.artifacts + overlay.artifacts,
        env: if overlay.env.len() == 0 { base.env } else { overlay.env },
        variables: spec_merge_pairs(spec_without(base.variables, overlay.unset_variables), overlay.variables),
        unset_variables: Seq::empty(),
    }
}

/// Merging `overlay` on top of `base`: the overlay's dependencies replace
/// the base's when it lists any, and the base's stay otherwise; likewise its
/// image, when it has one, and its env, when it exports any; the artifacts
/// of both are kept, the base's first; and no variable is left to unset.
pub proof fn lemma_merge_overlay_wins(base: DataView, overlay: DataView)
    ensures
        overlay.needs.len() > 0 ==> spec_merge_data(base, overlay).needs == overlay.needs,
        overlay.needs.len() == 0 ==> spec_merge_data(base, overlay).needs == base.needs,
        overlay.image is Some ==> spec_merge_data(base, overlay).image == overlay.image,
        overlay.image is None ==> spec_merge_data(base, overlay).image == base.image,
        overlay.env.len() > 0 ==> spec_merge_data(base, overlay).env == overlay.env,
        overlay.env.len() == 0 ==> spec_merge_data(base, overlay).env == base.env,
        spec_merge_data(base, overlay).artifacts.len() == base.artifacts.len() + overlay.artifacts.len(),
        forall|i: int| 0 <= i < base.artifacts.len() ==> spec_merge_data(base, overlay).artifacts[i] == base.artifacts[i],
        forall|i: int| 0 <= i < overlay.artifacts.len()
            ==> spec_merge_data(base, overlay).artifacts[base.artifacts.len() + i] == overlay.artifacts[i],
        spec_merge_data(base, overlay).unset_variables.len() == 0,
        forall|k: Seq<char>| #[trigger] lookup(spec_merge_data(base, overlay).steps, k) == match last_value(overlay.steps, k) {
            Some(x) => Some(x),
            None => lookup(base.steps, k),
        },
{
    assert forall|k: Seq<char>| #[trigger] lookup(spec_merge_data(base, overlay).steps, k) == match last_value(overlay.steps, k) {
        Some(x) => Some(x),
        None => lookup(base.steps, k),
    } by {
        lemma_merge_lookup(base.steps, overlay.steps, k);
    }
}

/// Merge `overlay` on top of `base`.
///
/// - Steps: overlay steps replace same-named base steps; new overlay steps are appended.
/// - Image: overlay image wins if present, otherwise base image.
/// - Needs: overlay needs win if non-empty, otherwise base needs.
/// - Artifacts: base and overlay artifacts are concatenated (both kept).
/// - Env: overlay env wins if non-empty, otherwise base env.
/// - Variables: overlay `unset_variables` are removed first, then overlay entries
///   override same-named base entries; new overlay entries are appended.
pub fn merge_template_data(base: TemplateData, overlay: TemplateData) -> (r: TemplateData)
    ensures
        r@ == spec_merge_data(base@, overlay@),
{
    let steps = merge_variables(base.steps, overlay.steps);
    let image = match overlay.image {
        Some(i) => Some(i),
        None => base.image,
    };
    let needs = if overlay.needs.len() == 0 { base.needs } else { overlay.needs };
    let mut artifacts = base.artifacts;
    let ghost a0 = strs_view(artifacts@);
    let mut i: usize = 0;
    while i < overlay.artifacts.len()
        invariant
            0 <= i <= overlay.artifacts@.len(),
            strs_view(artifacts@) == a0 + strs_view(overlay.artifacts@).take(i as int),
        decreases overlay.artifacts@.len() - i,
    {
        let ghost before = strs_view(artifacts@);
        artifacts.push(overlay.artifacts[i].clone());
        assert(strs_view(artifacts@) =~= before.push(strs_view(overlay.artifacts@)[i as int]));
        assert(strs_view(overlay.artifacts@).take(i + 1) =~= strs_view(overlay.artifacts@).take(i as int).push(strs_view(overlay.artifacts@)[i as int]));
        i = i + 1;
    }
    assert(strs_view(overlay.artifacts@).take(overlay.artifacts@.len() as int) =~= strs_view(overlay.artifacts@));
    let env = if overlay.env.len() == 0 { base.env } else { overlay.env };
    let base_vars = without_unset(&base.variables, &overlay.unset_variables);
    let variables = merge_variables(base_vars, overlay.variables);
    let r = TemplateData {
        steps,
        image,
        needs,
        artifacts,
        env,
        variables,
        unset_variables: Vec::new(),
    };
    assert(r@.unset_variables =~= Seq::empty());
    r
}

// ─── step lists ──────────────────────────────────────────────────────────────

/// An entry of a step list: a step (named or not, with a shell body or a bare
/// reference to an inherited step) or the `steps` keyword.
pub enum StepItem {
    Step { name: Option<String>, shell: Option<String> },
    Steps,
}

pub enum StepItemView {
    Step { name: Option<Seq<char>>, shell: Option<Seq<char>> },
    Steps,
}

pub open spec fn item_view(i: StepItem) -> StepItemView {
    match i {
        StepItem::Step { name, shell } => StepItemView::Step { name: opt_view(name), shell: opt_view(shell) },
        StepItem::Steps => StepItemView::Steps,
    }
}

pub open spec fn items_view(v: Seq<StepItem>) -> Seq<StepItemView> {
    v.map_values(|i: StepItem| item_view(i))
}

/// The names of the named steps among `items[..k]`.
pub open spec fn explicit_names(items: Seq<StepItemView>, k: int) -> Seq<Seq<char>>
    decreases k,
{
    if k <= 0 || k > items.len() {
        Seq::empty()
    } else {
        explicit_names(items, k - 1) + match items[k - 1] {
            StepItemView::Step { name: Some(n), .. } => seq![n],
            _ => Seq::empty(),
        }
    }
}

/// The inherited steps not named in `explicit`, in order.
pub open spec fn steps_not_in(tsteps: Seq<(Seq<char>, Seq<char>)>, explicit: Seq<Seq<char>>) -> Seq<(Seq<char>, Seq<char>)>
    decreases tsteps.len(),
{
    if tsteps.len() == 0 {
        Seq::empty()
    } else {
        let rest = steps_not_in(tsteps.drop_last(), explicit);
        if explicit.contains(tsteps.last().0) {
            rest
        } else {
            rest.push(tsteps.last())
        }
    }
}

/// The steps of `items[..k]` resolved against the inherited `tsteps`, and
/// the names of bare references no inherited step answers.
pub open spec fn spec_resolve_steps(
    items: Seq<StepItemView>,
    tsteps: Seq<(Seq<char>, Seq<char>)>,
    explicit: Seq<Seq<char>>,
    k: int,
) -> (Seq<(Seq<char>, Seq<char>)>, Seq<Seq<char>>)
    decreases k,
{
    if k <= 0 || k > items.len() {
        (Seq::empty(), Seq::empty())
    } else {
        let (steps, unresolved) = spec_resolve_steps(items, tsteps, explicit, k - 1);
        match items[k - 1] {
            StepItemView::Step { name, shell } => {
                let n = match name {
                    Some(n) => n,
                    None => Seq::empty(),
                };
                match shell {
                    Some(sh) => (steps.push((n, spec_dedent(sh))), unresolved),
                    None => if name is Some {
                        let i = key_index(tsteps, n, 0);
                        if i < tsteps.len() {
                            (steps.push((n, tsteps[i].1)), unresolved)
                        } else {
                            (steps, unresolved.push(n))
                        }
                    } else {
                        (steps, unresolved)
                    },
                }
            },
            StepItemView::Steps => (steps + steps_not_in(tsteps, explicit), unresolved),
        }
    }
}

/// Resolve a step list against the steps it inherits.
///
/// Returns the steps, named so that whatever inherits them can refer to them
/// in turn, and the names of references no inherited template defines. The
/// `steps` keyword expands to the inherited steps the list doesn't name itself.
pub fn resolve_steps(items: &Vec<StepItem>, template_steps: &Vec<(String, String)>) -> (r: (Vec<(String, String)>, Vec<String>))
    ensures
        (pairs_view(r.0@), strs_view(r.1@)) == spec_resolve_steps(
            items_view(items@),
            pairs_view(template_steps@),
            explicit_names(items_view(items@), items@.len() as int),
            items@.len() as int,
        ),
{
    let ghost iv = items_view(items@);
    let ghost tv = pairs_view(template_steps@);
    // Names of all steps listed explicitly (full steps and bare references).
    let mut explicit: Vec<String> = Vec::new();
    let mut k: usize = 0;
    while k < items.len()
        invariant
            0 <= k <= items@.len(),
            iv == items_view(items@),
            strs_view(explicit@) == explicit_names(iv, k as int),
        decreases items@.len() - k,
    {
        let ghost before = strs_view(explicit@);
        assert(iv[k as int] == item_view(items@[k as int]));
        match &items[k] {
            StepItem::Step { name: Some(n), .. } => {
                explicit.push(n.clone());
                assert(strs_view(explicit@) =~= before.push(n@));
            },
            _ => {
                assert(before + Seq::<Seq<char>>::empty() =~= before);
            },
        }
        k = k + 1;
    }
    let ghost ex = strs_view(explicit@);
    let mut script: Vec<(String, String)> = Vec::new();
    let mut unresolved: Vec<String> = Vec::new();
    let mut i: usize = 0;
    while i < items.len()
        invariant
            0 <= i <= items@.len(),
            iv == items_view(items@),
            tv == pairs_view(template_steps@),
            ex == strs_view(explicit@),
            ex == explicit_names(iv, items@.len() as int),
            (pairs_view(script@), strs_view(unresolved@)) == spec_resolve_steps(iv, tv, ex, i as int),
        decreases items@.len() - i,
    {
        let ghost s0 = pairs_view(script@);
        let ghost u0 = strs_view(unresolved@);
        assert(iv[i as int] == item_view(items@[i as int]));
        match &items[i] {
            StepItem::Step { name, shell } => {
                let n = match name {
                    Some(n) => n.clone(),
                    None => String::new(),
                };
                match shell {
                    Some(sh) => {
                        script.push((n, dedent(sh.as_str())));
                        assert(pairs_view(script@) =~= s0.push(pairs_view(script@).last()));
                    },
                    None => {
                        if name.is_some() {
                            match find_key(template_steps, n.as_str()) {
                                Some(j) => {
                                    let body = template_steps[j].1.clone();
                                    script.push((n, body));
                                    assert(pairs_view(script@) =~= s0.push(pairs_view(script@).last()));
                                },
                                None => {
                                    unresolved.push(n);
                                    assert(strs_view(unresolved@) =~= u0.push(strs_view(unresolved@).last()));
                                },
                            }
                        }
                    },
                }
            },
            StepItem::Steps => {
                let mut t: usize = 0;
                while t < template_steps.len()
                    invariant
                        0 <= t <= template_steps@.len(),
                        tv == pairs_view(template_steps@),
                        ex == strs_view(explicit@),
                        pairs_view(script@) == s0 + steps_not_in(tv.take(t as int), ex),
                    decreases template_steps@.len() - t,
                {
                    assert(tv.take(t + 1).drop_last() =~= tv.take(t as int));
                    assert(tv.take(t + 1).last() == tv[t as int]);
                    let named = crate::text::contains_str(&explicit, template_steps[t].0.as_str());
                    proof {
                        if named {
                            let j = choose|j: int| 0 <= j < explicit@.len() && #[trigger] explicit@[j]@ == template_steps@[t as int].0@;
                            assert(ex[j] == tv[t as int].0);
                        } else {
                            assert forall|j: int| 0 <= j < ex.len() implies ex[j] != tv[t as int].0 by {
                                assert(ex[j] == explicit@[j]@);
                            }
                        }
                    }
                    if !named {
                        let ghost before = pairs_view(script@);
                        script.push((template_steps[t].0.clone(), template_steps[t].1.clone()));
                        assert(pairs_view(script@) =~= before.push(tv[t as int]));
                    }
                    t = t + 1;
                }
                assert(tv.take(tv.len() as int) =~= tv);
            },
        }
        i = i + 1;
    }
    (script, unresolved)
}


/// Removing no names keeps every entry.
pub proof fn lemma_without_nothing(vars: Seq<(Seq<char>, Seq<char>)>)
    ensures
        spec_without(vars, Seq::empty()) == vars,
    decreases vars.len(),
{
    if vars.len() > 0 {
        lemma_without_nothing(vars.drop_last());
        assert(vars.drop_last().push(vars.last()) =~= vars);
    }
}

// ─── laws ────────────────────────────────────────────────────────────────────

/// The value of the first entry named `k`, as a lookup reads it.
pub open spec fn lookup(v: Seq<(Seq<char>, Seq<char>)>, k: Seq<char>) -> Option<Seq<char>> {
    let i = key_index(v, k, 0);
    if i < v.len() {
        Some(v[i].1)
    } else {
        None
    }
}

/// The value of the last entry of `overlay` named `k`.
pub open spec fn last_value(overlay: Seq<(Seq<char>, Seq<char>)>, k: Seq<char>) -> Option<Seq<char>>
    decreases overlay.len(),
{
    if overlay.len() == 0 {
        None
    } else if overlay.last().0 == k {
        Some(overlay.last().1)
    } else {
        last_value(overlay.drop_last(), k)
    }
}

proof fn lemma_same_keys(a: Seq<(Seq<char>, Seq<char>)>, b: Seq<(Seq<char>, Seq<char>)>, k: Seq<char>, from: int)
    requires
        a.len() == b.len(),
        forall|j: int| 0 <= j < a.len() ==> #[trigger] a[j].0 == b[j].0,
    ensures
        key_index(a, k, from) == key_index(b, k, from),
    decreases a.len() - from,
{
    if 0 <= from < a.len() && a[from].0 != k {
        lemma_same_keys(a, b, k, from + 1);
    }
}

proof fn lemma_push_key(m: Seq<(Seq<char>, Seq<char>)>, kv: (Seq<char>, Seq<char>), k: Seq<char>, from: int)
    requires
        0 <= from <= m.len(),
    ensures
        key_index(m.push(kv), k, from) == if key_index(m, k, from) < m.len() {
            key_index(m, k, from)
        } else if kv.0 == k {
            m.len() as int
        } else {
            m.len() + 1int
        },
    decreases m.len() - from,
{
    if from < m.len() && m[from].0 != k {
        assert(m.push(kv)[from] == m[from]);
        lemma_push_key(m, kv, k, from + 1);
    } else if from < m.len() {
        assert(m.push(kv)[from] == m[from]);
    } else {
        assert(m.push(kv)[from] == kv);
        assert(key_index(m.push(kv), k, from + 1) == m.len() + 1);
    }
}

/// Reading a name after laying one entry over `m`.
proof fn lemma_merge_one_lookup(m: Seq<(Seq<char>, Seq<char>)>, kv: (Seq<char>, Seq<char>), k: Seq<char>)
    ensures
        lookup(merge_one(m, kv), k) == if kv.0 == k {
            Some(kv.1)
        } else {
            lookup(m, k)
        },
{
    lemma_key_index(m, kv.0, 0);
    lemma_key_index(m, k, 0);
    let i = key_index(m, kv.0, 0);
    let n = merge_one(m, kv);
    if i < m.len() {
        assert forall|j: int| 0 <= j < m.len() implies #[trigger] m[j].0 == n[j].0 by {}
        lemma_same_keys(m, n, k, 0);
    } else {
        lemma_push_key(m, kv, k, 0);
        if kv.0 != k && key_index(m, k, 0) < m.len() {
            assert(n[key_index(m, k, 0)] == m[key_index(m, k, 0)]);
        }
    }
}

/// Laying `overlay` over `base`, a name reads as the last value the overlay
/// gives it, and as in `base` when the overlay doesn't name it.
pub proof fn lemma_merge_lookup(base: Seq<(Seq<char>, Seq<char>)>, overlay: Seq<(Seq<char>, Seq<char>)>, k: Seq<char>)
    ensures
        lookup(spec_merge_pairs(base, overlay), k) == match last_value(overlay, k) {
            Some(v) => Some(v),
            None => lookup(base, k),
        },
    decreases overlay.len(),
{
    if overlay.len() > 0 {
        lemma_merge_lookup(base, overlay.drop_last(), k);
        lemma_merge_one_lookup(spec_merge_pairs(base, overlay.drop_last()), overlay.last(), k);
    }
}

/// Merging data that sets nothing onto `base` leaves it as it was.
pub proof fn lemma_merge_nothing(base: DataView)
    requires
        base.unset_variables.len() == 0,
    ensures
        spec_merge_data(base, empty_data()) == base,
{
    lemma_without_nothing(base.variables);
    assert(base.artifacts + Seq::<Seq<char>>::empty() =~= base.artifacts);
    assert(base.unset_variables =~= Seq::<Seq<char>>::empty());
}

} // verus!

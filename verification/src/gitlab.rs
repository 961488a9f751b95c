use vstd::prelude::*;

use crate::dedent::{lines_of, spec_lines};
use crate::ir::{Job, JobRef, Workflow, WorkflowStrategy};
use crate::text::{chars_of, str_eq};

verus! {

// ─── job names ───────────────────────────────────────────────────────────────

/// The names of all jobs, stage by stage.
pub open spec fn all_job_names(w: Workflow) -> Seq<Seq<char>> {
    w.stages@.map_values(|s: crate::ir::Stage| s.jobs@.map_values(|j: Job| j.name@)).flatten()
}

/// `name` is the name of more than one job, so it needs its stage as a prefix
/// to be unambiguous.
pub open spec fn is_conflict(names: Seq<Seq<char>>, name: Seq<char>) -> bool {
    exists|i: int, j: int| 0 <= i < j < names.len() && #[trigger] names[i] == name && #[trigger] names[j] == name
}

/// The names of jobs, stage by stage, in order.
fn job_names(workflow: &Workflow) -> (r: Vec<String>)
    ensures
        crate::ir::strs_view(r@) == all_job_names(*workflow),
{
    let ghost per_stage = workflow.stages@.map_values(|s: crate::ir::Stage| s.jobs@.map_values(|j: Job| j.name@));
    let mut r: Vec<String> = Vec::new();
    let mut si: usize = 0;
    while si < workflow.stages.len()
        invariant
            0 <= si <= workflow.stages@.len(),
            per_stage == workflow.stages@.map_values(|s: crate::ir::Stage| s.jobs@.map_values(|j: Job| j.name@)),
            crate::ir::strs_view(r@) == per_stage.take(si as int).flatten(),
        decreases workflow.stages@.len() - si,
    {
        let jobs = &workflow.stages[si].jobs;
        let ghost before = crate::ir::strs_view(r@);
        let mut ji: usize = 0;
        while ji < jobs.len()
            invariant
                0 <= ji <= jobs@.len(),
                crate::ir::strs_view(r@) == before + jobs@.map_values(|j: Job| j.name@).take(ji as int),
            decreases jobs@.len() - ji,
        {
            let ghost b2 = crate::ir::strs_view(r@);
            r.push(jobs[ji].name.clone());
            assert(crate::ir::strs_view(r@) =~= b2.push(jobs@[ji as int].name@));
            assert(jobs@.map_values(|j: Job| j.name@).take(ji + 1) =~= jobs@.map_values(|j: Job| j.name@).take(ji as int).push(jobs@[ji as int].name@));
            ji = ji + 1;
        }
        proof {
            assert(jobs@.map_values(|j: Job| j.name@).take(jobs@.len() as int) =~= jobs@.map_values(|j: Job| j.name@));
            assert(per_stage.take(si + 1) =~= per_stage.take(si as int).push(per_stage[si as int]));
            per_stage.take(si as int).lemma_flatten_push(per_stage[si as int]);
        }
        si = si + 1;
    }
    assert(per_stage.take(per_stage.len() as int) =~= per_stage);
    r
}

/// `x` is among the first `j` names at two places.
pub open spec fn twice_before(nv: Seq<Seq<char>>, j: int, x: Seq<char>) -> bool {
    exists|a: int, b: int| 0 <= a < b < j && #[trigger] nv[a] == x && #[trigger] nv[b] == x
}

/// `x` is one of `v`.
pub open spec fn listed(v: Seq<String>, x: Seq<char>) -> bool {
    exists|k: int| 0 <= k < v.len() && #[trigger] v[k]@ == x
}

/// Returns the names of jobs that appear more than once and therefore need
/// the `stage.job` prefix to be unambiguous in GitLab CI.
fn conflicting_job_names(workflow: &Workflow) -> (r: Vec<String>)
    ensures
        forall|x: Seq<char>| #[trigger] is_conflict(all_job_names(*workflow), x) <==> listed(r@, x),
{
    let names = job_names(workflow);
    let ghost nv = crate::ir::strs_view(names@);
    let mut conflicts: Vec<String> = Vec::new();
    let mut j: usize = 0;
    while j < names.len()
        invariant
            0 <= j <= names@.len(),
            nv == crate::ir::strs_view(names@),
            forall|x: Seq<char>| #[trigger] twice_before(nv, j as int, x) <==> listed(conflicts@, x),
        decreases names@.len() - j,
    {
        let mut i: usize = 0;
        let mut earlier = false;
        while i < j
            invariant
                0 <= i <= j < names@.len(),
                nv == crate::ir::strs_view(names@),
                earlier <==> exists|a: int| 0 <= a < i && #[trigger] nv[a] == nv[j as int],
            decreases j - i,
        {
            if str_eq(names[i].as_str(), names[j].as_str()) {
                earlier = true;
            }
            assert(nv[i as int] == names@[i as int]@);
            assert(nv[j as int] == names@[j as int]@);
            i = i + 1;
        }
        let ghost c0 = conflicts@;
        if earlier {
            conflicts.push(names[j].clone());
        }
        proof {
            assert(nv[j as int] == names@[j as int]@);
            assert forall|x: Seq<char>| #[trigger] twice_before(nv, j + 1, x) <==> listed(conflicts@, x) by {
                if twice_before(nv, j + 1, x) {
                    let (a, b) = choose|a: int, b: int| 0 <= a < b < j + 1 && #[trigger] nv[a] == x && #[trigger] nv[b] == x;
                    if b < j {
                        assert(twice_before(nv, j as int, x));
                        let k = choose|k: int| 0 <= k < c0.len() && #[trigger] c0[k]@ == x;
                        assert(conflicts@[k] == c0[k]);
                    } else {
                        assert(earlier);
                        assert(conflicts@[c0.len() as int]@ == x);
                    }
                }
                if listed(conflicts@, x) {
                    let k = choose|k: int| 0 <= k < conflicts@.len() && #[trigger] conflicts@[k]@ == x;
                    if k < c0.len() {
                        assert(c0[k] == conflicts@[k]);
                        assert(listed(c0, x));
                        assert(twice_before(nv, j as int, x));
                        let (a, b) = choose|a: int, b: int| 0 <= a < b < j && #[trigger] nv[a] == x && #[trigger] nv[b] == x;
                        assert(0 <= a < b < j + 1 && nv[a] == x && nv[b] == x);
                    } else {
                        let a = choose|a: int| 0 <= a < j && #[trigger] nv[a] == nv[j as int];
                        assert(0 <= a < j as int && j < j + 1 && nv[a] == x && nv[j as int] == x);
                    }
                }
            }
        }
        j = j + 1;
    }
    proof {
        assert forall|x: Seq<char>| #[trigger] is_conflict(all_job_names(*workflow), x) <==> listed(conflicts@, x) by {
            assert(twice_before(nv, nv.len() as int, x) <==> listed(conflicts@, x));
        }
    }
    conflicts
}

/// The name a job goes by in GitLab CI: `stage.name` for a conflicting name.
pub open spec fn spec_job_name(names: Seq<Seq<char>>, stage: Seq<char>, name: Seq<char>) -> Seq<char> {
    if is_conflict(names, name) {
        stage + seq!['.'] + name
    } else {
        name
    }
}

fn job_name(stage: &str, name: &str, conflicts: &Vec<String>, Ghost(names): Ghost<Seq<Seq<char>>>) -> (r: String)
    requires
        forall|x: Seq<char>| #[trigger] is_conflict(names, x) <==> listed(conflicts@, x),
    ensures
        r@ == spec_job_name(names, stage@, name@),
{
    let c = crate::text::contains_str(conflicts, name);
    assert(c == listed(conflicts@, name@));
    assert(is_conflict(names, name@) == listed(conflicts@, name@));
    if c {
        let mut r = stage.to_owned();
        r.append(".");
        r.append(name);
        proof {
            reveal_strlit(".");
        }
        r
    } else {
        name.to_owned()
    }
}

// ─── scalars ─────────────────────────────────────────────────────────────────

pub open spec fn is_special(c: char) -> bool {
    c == ':' || c == '#' || c == '{' || c == '}' || c == '[' || c == ']' || c == '*' || c == '&'
        || c == '!' || c == '|' || c == '>' || c == '\'' || c == '"' || c == '`'
}

/// A value that YAML would read as something other than this plain string.
pub open spec fn spec_needs_quoting(s: Seq<char>) -> bool {
    ||| s.len() == 0
    ||| exists|i: int| 0 <= i < s.len() && is_special(#[trigger] s[i])
    ||| s[0] == '%' || s[0] == '@'
    ||| s == "true"@ || s == "false"@ || s == "null"@ || s == "yes"@ || s == "no"@ || s == "on"@ || s == "off"@
}

fn needs_quoting(s: &str) -> (r: bool)
    ensures
        r == spec_needs_quoting(s@),
{
    let cs = chars_of(s);
    if cs.len() == 0 {
        return true;
    }
    let mut i: usize = 0;
    while i < cs.len()
        invariant
            0 <= i <= cs@.len(),
            cs@ == s@,
            forall|j: int| 0 <= j < i ==> !is_special(#[trigger] cs@[j]),
        decreases cs@.len() - i,
    {
        let c = cs[i];
        if c == ':' || c == '#' || c == '{' || c == '}' || c == '[' || c == ']' || c == '*' || c == '&'
            || c == '!' || c == '|' || c == '>' || c == '\'' || c == '"' || c == '`' {
            return true;
        }
        i = i + 1;
    }
    cs[0] == '%' || cs[0] == '@' || str_eq(s, "true") || str_eq(s, "false") || str_eq(s, "null")
        || str_eq(s, "yes") || str_eq(s, "no") || str_eq(s, "on") || str_eq(s, "off")
}

/// `s` with `\` and `"` escaped by a backslash.
pub open spec fn escape(s: Seq<char>) -> Seq<char>
    decreases s.len(),
{
    if s.len() == 0 {
        Seq::empty()
    } else {
        escape(s.drop_last()) + if s.last() == '\\' {
            seq!['\\', '\\']
        } else if s.last() == '"' {
            seq!['\\', '"']
        } else {
            seq![s.last()]
        }
    }
}

/// `s` as a YAML scalar: quoted and escaped when it needs to be.
pub open spec fn spec_yaml_scalar(s: Seq<char>) -> Seq<char> {
    if spec_needs_quoting(s) {
        seq!['"'] + escape(s) + seq!['"']
    } else {
        s
    }
}

fn yaml_scalar(s: &str) -> (r: String)
    ensures
        r@ == spec_yaml_scalar(s@),
{
    if !needs_quoting(s) {
        return s.to_owned();
    }
    let cs = chars_of(s);
    let mut out: Vec<char> = Vec::new();
    out.push('"');
    let mut i: usize = 0;
    while i < cs.len()
        invariant
            0 <= i <= cs@.len(),
            cs@ == s@,
            out@ == seq!['"'] + escape(cs@.take(i as int)),
        decreases cs@.len() - i,
    {
        let c = cs[i];
        let ghost before = out@;
        if c == '\\' {
            out.push('\\');
            out.push('\\');
        } else if c == '"' {
            out.push('\\');
            out.push('"');
        } else {
            out.push(c);
        }
        assert(cs@.take(i + 1).drop_last() =~= cs@.take(i as int));
        assert(out@ =~= seq!['"'] + escape(cs@.take(i + 1)));
        i = i + 1;
    }
    out.push('"');
    assert(cs@.take(cs@.len() as int) =~= cs@);
    crate::text::string_from_chars(out.as_slice())
}

// ─── rendering ───────────────────────────────────────────────────────────────

/// The `rules` conditions a strategy puts on every job.
pub open spec fn spec_rules(strategy: WorkflowStrategy) -> Seq<Seq<char>> {
    match strategy {
        WorkflowStrategy::NoRules => Seq::empty(),
        WorkflowStrategy::DefaultBranch => seq!["$CI_COMMIT_BRANCH == $CI_DEFAULT_BRANCH"@],
        WorkflowStrategy::Reviews => seq!["$CI_MERGE_REQUEST_IID"@],
        WorkflowStrategy::DefaultBranchAndReviews => seq!["$CI_COMMIT_BRANCH == $CI_DEFAULT_BRANCH"@, "$CI_MERGE_REQUEST_IID"@],
    }
}

fn strategy_rules(strategy: WorkflowStrategy) -> (r: Vec<&'static str>)
    ensures
        r@.map_values(|s: &str| s@) == spec_rules(strategy),
{
    let mut r: Vec<&'static str> = Vec::new();
    match strategy {
        WorkflowStrategy::NoRules => {},
        WorkflowStrategy::DefaultBranch => {
            r.push("$CI_COMMIT_BRANCH == $CI_DEFAULT_BRANCH");
        },
        WorkflowStrategy::Reviews => {
            r.push("$CI_MERGE_REQUEST_IID");
        },
        WorkflowStrategy::DefaultBranchAndReviews => {
            r.push("$CI_COMMIT_BRANCH == $CI_DEFAULT_BRANCH");
            r.push("$CI_MERGE_REQUEST_IID");
        },
    }
    assert(r@.map_values(|s: &str| s@) =~= spec_rules(strategy));
    r
}

/// `line` on its own line, after `indent`.
pub open spec fn indented(indent: Seq<char>, lines: Seq<Seq<char>>) -> Seq<char>
    decreases lines.len(),
{
    if lines.len() == 0 {
        Seq::empty()
    } else {
        indented(indent, lines.drop_last()) + indent + lines.last() + seq!['\n']
    }
}

/// A script entry: a block scalar for a multi-line command.
pub open spec fn spec_script_item(cmd: Seq<char>) -> Seq<char> {
    if cmd.contains('\n') {
        "    - |\n"@ + indented("      "@, spec_lines(cmd))
    } else {
        "    - "@ + cmd + seq!['\n']
    }
}

fn push_line(out: &mut String, indent: &str, text: &str)
    ensures
        final(out)@ == old(out)@ + indent@ + text@ + seq!['\n'],
{
    out.append(indent);
    out.append(text);
    out.append("\n");
    proof {
        reveal_strlit("\n");
    }
}

fn write_script_item(out: &mut String, cmd: &str)
    ensures
        final(out)@ == old(out)@ + spec_script_item(cmd@),
{
    let cs = chars_of(cmd);
    if crate::text::contains_char(cmd, '\n') {
        proof {
            crate::text::lemma_find_char_from(cmd@, '\n', 0);
            assert(cmd@[crate::text::find_char(cmd@, '\n')] == '\n');
            assert(cmd@.contains('\n'));
        }
        out.append("    - |\n");
        let ghost head = out@;
        let ls = lines_of(&cs);
        let ghost lv = ls@.map_values(|v: Vec<char>| v@);
        let mut i: usize = 0;
        while i < ls.len()
            invariant
                0 <= i <= ls@.len(),
                lv == ls@.map_values(|v: Vec<char>| v@),
                out@ == head + indented("      "@, lv.take(i as int)),
            decreases ls@.len() - i,
        {
            let line = crate::text::string_from_chars(ls[i].as_slice());
            push_line(out, "      ", line.as_str());
            assert(lv.take(i + 1).drop_last() =~= lv.take(i as int));
            assert(lv[i as int] == line@);
            i = i + 1;
        }
        assert(lv.take(lv.len() as int) =~= lv);
    } else {
        proof {
            crate::text::lemma_find_char_from(cmd@, '\n', 0);
            if cmd@.contains('\n') {
                let k = choose|k: int| 0 <= k < cmd@.len() && cmd@[k] == '\n';
                assert(false);
            }
        }
        push_line(out, "    - ", cmd);
    }
}

/// The needs entries of a job.
pub open spec fn needs_lines(names: Seq<Seq<char>>, needs: Seq<JobRef>) -> Seq<char>
    decreases needs.len(),
{
    if needs.len() == 0 {
        Seq::empty()
    } else {
        needs_lines(names, needs.drop_last()) + "    - job: "@
            + spec_yaml_scalar(spec_job_name(names, needs.last().stage@, needs.last().job@)) + seq!['\n']
    }
}

/// The script entries of a job.
pub open spec fn script_lines(script: Seq<String>) -> Seq<char>
    decreases script.len(),
{
    if script.len() == 0 {
        Seq::empty()
    } else {
        script_lines(script.drop_last()) + spec_script_item(script.last()@)
    }
}

/// The first lines of a job's entry: its name, stage and image.
pub open spec fn header_text(names: Seq<Seq<char>>, job: Job) -> Seq<char> {
    spec_job_name(names, job.stage@, job.name@) + ":\n"@
        + "  stage: "@ + job.stage@ + seq!['\n']
        + match job.image {
            Some(i) => "  image: "@ + spec_yaml_scalar(i@) + seq!['\n'],
            None => Seq::empty(),
        }
}

/// The jobs a job needs; a job needing none is given an empty
/// `dependencies` list, so that it downloads no artifacts.
pub open spec fn needs_text(names: Seq<Seq<char>>, job: Job) -> Seq<char> {
    if job.needs@.len() == 0 { "  dependencies: []\n"@ } else { "  needs:\n"@ + needs_lines(names, job.needs@) }
}

pub open spec fn rules_text(strategy: WorkflowStrategy) -> Seq<char> {
    let rules = spec_rules(strategy);
    if rules.len() == 0 { Seq::empty() } else { "  rules:\n"@ + indented("    - if: "@, rules) }
}

pub open spec fn script_text(job: Job) -> Seq<char> {
    "  script:\n"@ + if job.script@.len() == 0 { "    - \"\"\n"@ } else { script_lines(job.script@) }
}

/// A job's entry in the pipeline.
pub open spec fn spec_render_job(names: Seq<Seq<char>>, job: Job, strategy: WorkflowStrategy) -> Seq<char> {
    header_text(names, job) + needs_text(names, job) + rules_text(strategy) + script_text(job)
}

fn write_header(out: &mut String, job: &Job, conflicts: &Vec<String>, Ghost(names): Ghost<Seq<Seq<char>>>)
    requires
        forall|x: Seq<char>| #[trigger] is_conflict(names, x) <==> listed(conflicts@, x),
    ensures
        final(out)@ == old(out)@ + header_text(names, *job),
{
    proof {
        reveal_strlit(":\n");
    }
    let name = job_name(job.stage.as_str(), job.name.as_str(), conflicts, Ghost(names));
    out.append(name.as_str());
    out.append(":\n");
    push_line(out, "  stage: ", job.stage.as_str());
    match &job.image {
        Some(image) => {
            let v = yaml_scalar(image.as_str());
            push_line(out, "  image: ", v.as_str());
        },
        None => {},
    }
    assert(out@ =~= old(out)@ + header_text(names, *job));
}

fn write_needs(out: &mut String, job: &Job, conflicts: &Vec<String>, Ghost(names): Ghost<Seq<Seq<char>>>)
    requires
        forall|x: Seq<char>| #[trigger] is_conflict(names, x) <==> listed(conflicts@, x),
    ensures
        final(out)@ == old(out)@ + needs_text(names, *job),
{
    if job.needs.len() > 0 {
        out.append("  needs:\n");
        let ghost h = out@;
        let mut i: usize = 0;
        while i < job.needs.len()
            invariant
                0 <= i <= job.needs@.len(),
                forall|x: Seq<char>| #[trigger] is_conflict(names, x) <==> listed(conflicts@, x),
                out@ == h + needs_lines(names, job.needs@.take(i as int)),
            decreases job.needs@.len() - i,
        {
            let need = &job.needs[i];
            let dep = job_name(need.stage.as_str(), need.job.as_str(), conflicts, Ghost(names));
            let v = yaml_scalar(dep.as_str());
            push_line(out, "    - job: ", v.as_str());
            assert(job.needs@.take(i + 1).drop_last() =~= job.needs@.take(i as int));
            i = i + 1;
        }
        assert(job.needs@.take(job.needs@.len() as int) =~= job.needs@);
        proof {
            reveal_strlit("  needs:\n");
        }
    } else {
        // A job without dependencies downloads no artifacts from earlier jobs.
        out.append("  dependencies: []\n");
    }
}

fn write_rules(out: &mut String, strategy: WorkflowStrategy)
    ensures
        final(out)@ == old(out)@ + rules_text(strategy),
{
    let rules = strategy_rules(strategy);
    let ghost rv = rules@.map_values(|s: &str| s@);
    if rules.len() > 0 {
        out.append("  rules:\n");
        let ghost h = out@;
        let mut i: usize = 0;
        while i < rules.len()
            invariant
                0 <= i <= rules@.len(),
                rv == rules@.map_values(|s: &str| s@),
                out@ == h + indented("    - if: "@, rv.take(i as int)),
            decreases rules@.len() - i,
        {
            push_line(out, "    - if: ", rules[i]);
            assert(rv.take(i + 1).drop_last() =~= rv.take(i as int));
            i = i + 1;
        }
        assert(rv.take(rv.len() as int) =~= rv);
        proof {
            reveal_strlit("  rules:\n");
        }
    }
}

fn write_script(out: &mut String, job: &Job)
    ensures
        final(out)@ == old(out)@ + script_text(*job),
{
    out.append("  script:\n");
    let ghost h = out@;
    if job.script.len() == 0 {
        out.append("    - \"\"\n");
    } else {
        let mut i: usize = 0;
        while i < job.script.len()
            invariant
                0 <= i <= job.script@.len(),
                out@ == h + script_lines(job.script@.take(i as int)),
            decreases job.script@.len() - i,
        {
            write_script_item(out, job.script[i].as_str());
            assert(job.script@.take(i + 1).drop_last() =~= job.script@.take(i as int));
            i = i + 1;
        }
        assert(job.script@.take(job.script@.len() as int) =~= job.script@);
    }
    proof {
        reveal_strlit("  script:\n");
    }
}

fn render_job(out: &mut String, job: &Job, conflicts: &Vec<String>, strategy: WorkflowStrategy, Ghost(names): Ghost<Seq<Seq<char>>>)
    requires
        forall|x: Seq<char>| #[trigger] is_conflict(names, x) <==> listed(conflicts@, x),
    ensures
        final(out)@ == old(out)@ + spec_render_job(names, *job, strategy),
{
    let ghost start = out@;
    write_header(out, job, conflicts, Ghost(names));
    write_needs(out, job, conflicts, Ghost(names));
    write_rules(out, strategy);
    write_script(out, job);
    assert(out@ =~= start + spec_render_job(names, *job, strategy));
}

/// The entries of the jobs of `stages`, each after a blank line.
pub open spec fn jobs_text(names: Seq<Seq<char>>, jobs: Seq<Job>, strategy: WorkflowStrategy) -> Seq<char>
    decreases jobs.len(),
{
    if jobs.len() == 0 {
        Seq::empty()
    } else {
        jobs_text(names, jobs.drop_last(), strategy) + seq!['\n'] + spec_render_job(names, jobs.last(), strategy)
    }
}

pub open spec fn stages_jobs_text(names: Seq<Seq<char>>, stages: Seq<crate::ir::Stage>, strategy: WorkflowStrategy) -> Seq<char>
    decreases stages.len(),
{
    if stages.len() == 0 {
        Seq::empty()
    } else {
        stages_jobs_text(names, stages.drop_last(), strategy) + jobs_text(names, stages.last().jobs@, strategy)
    }
}

/// Every job's entry in the pipeline holds, between its `needs` and its
/// script, the rules its workflow's strategy calls for: none for no rules;
/// only on the default branch; only for merge requests; or either of the two.
pub proof fn lemma_job_rules(names: Seq<Seq<char>>, job: Job, strategy: WorkflowStrategy)
    ensures
        spec_render_job(names, job, strategy) == header_text(names, job) + needs_text(names, job) + match strategy {
            WorkflowStrategy::NoRules => Seq::<char>::empty(),
            WorkflowStrategy::DefaultBranch => "  rules:\n    - if: $CI_COMMIT_BRANCH == $CI_DEFAULT_BRANCH\n"@,
            WorkflowStrategy::Reviews => "  rules:\n    - if: $CI_MERGE_REQUEST_IID\n"@,
            WorkflowStrategy::DefaultBranchAndReviews =>
                "  rules:\n    - if: $CI_COMMIT_BRANCH == $CI_DEFAULT_BRANCH\n    - if: $CI_MERGE_REQUEST_IID\n"@,
        } + script_text(job),
{
    reveal_strlit("  rules:\n");
    reveal_strlit("    - if: ");
    reveal_strlit("$CI_COMMIT_BRANCH == $CI_DEFAULT_BRANCH");
    reveal_strlit("$CI_MERGE_REQUEST_IID");
    reveal_strlit("  rules:\n    - if: $CI_COMMIT_BRANCH == $CI_DEFAULT_BRANCH\n");
    reveal_strlit("  rules:\n    - if: $CI_MERGE_REQUEST_IID\n");
    reveal_strlit("  rules:\n    - if: $CI_COMMIT_BRANCH == $CI_DEFAULT_BRANCH\n    - if: $CI_MERGE_REQUEST_IID\n");
    let ind = "    - if: "@;
    let a = "$CI_COMMIT_BRANCH == $CI_DEFAULT_BRANCH"@;
    let b = "$CI_MERGE_REQUEST_IID"@;
    assert(seq![a].drop_last() =~= Seq::<Seq<char>>::empty());
    assert(seq![b].drop_last() =~= Seq::<Seq<char>>::empty());
    assert(seq![a, b].drop_last() =~= seq![a]);
    assert(indented(ind, Seq::<Seq<char>>::empty()) =~= Seq::<char>::empty());
    assert(seq![a].last() == a);
    assert(seq![b].last() == b);
    assert(seq![a, b].last() == b);
    assert(indented(ind, seq![a]) =~= ind + a + seq!['\n']);
    assert(indented(ind, seq![b]) =~= ind + b + seq!['\n']);
    assert(indented(ind, seq![a, b]) =~= ind + a + seq!['\n'] + ind + b + seq!['\n']);
    match strategy {
        WorkflowStrategy::NoRules => {
            assert(rules_text(strategy) =~= Seq::<char>::empty());
        },
        WorkflowStrategy::DefaultBranch => {
            assert(rules_text(strategy) =~= "  rules:\n    - if: $CI_COMMIT_BRANCH == $CI_DEFAULT_BRANCH\n"@);
        },
        WorkflowStrategy::Reviews => {
            assert(rules_text(strategy) =~= "  rules:\n    - if: $CI_MERGE_REQUEST_IID\n"@);
        },
        WorkflowStrategy::DefaultBranchAndReviews => {
            assert(rules_text(strategy)
                =~= "  rules:\n    - if: $CI_COMMIT_BRANCH == $CI_DEFAULT_BRANCH\n    - if: $CI_MERGE_REQUEST_IID\n"@);
        },
    }
}

/// A job's entry starts with its name in the pipeline and its stage, then
/// its image when it has one; a job that needs no other gets an empty
/// `dependencies` list, and one that does lists, after `needs:`, one line per
/// job it needs, in order; the script comes last, an empty command when the
/// job has none.
pub proof fn lemma_job_entry(names: Seq<Seq<char>>, job: Job)
    ensures
        header_text(names, job) == spec_job_name(names, job.stage@, job.name@) + ":\n  stage: "@ + job.stage@ + "\n"@
            + match job.image {
            Some(i) => "  image: "@ + spec_yaml_scalar(i@) + "\n"@,
            None => Seq::<char>::empty(),
        },
        job.needs@.len() == 0 ==> needs_text(names, job) == "  dependencies: []\n"@,
        job.needs@.len() > 0 ==> needs_text(names, job) == "  needs:\n"@ + needs_lines(names, job.needs@),
        needs_lines(names, job.needs@).len() > 0 <==> job.needs@.len() > 0,
        job.script@.len() == 0 ==> script_text(job) == "  script:\n    - \"\"\n"@,
{
    reveal_strlit(":\n");
    reveal_strlit("  stage: ");
    reveal_strlit(":\n  stage: ");
    reveal_strlit("\n");
    reveal_strlit("  image: ");
    reveal_strlit("  script:\n");
    reveal_strlit("    - \"\"\n");
    reveal_strlit("  script:\n    - \"\"\n");
    assert(":\n  stage: "@ =~= ":\n"@ + "  stage: "@);
    assert(seq!['\n'] =~= "\n"@);
    assert(header_text(names, job) =~= spec_job_name(names, job.stage@, job.name@) + ":\n  stage: "@ + job.stage@ + "\n"@
        + match job.image {
        Some(i) => "  image: "@ + spec_yaml_scalar(i@) + "\n"@,
        None => Seq::<char>::empty(),
    });
    if job.script@.len() == 0 {
        assert(script_text(job) =~= "  script:\n    - \"\"\n"@);
    }
    if job.needs@.len() > 0 {
        reveal_strlit("    - job: ");
        assert(needs_lines(names, job.needs@).len() > 0);
    }
}

/// The GitLab CI pipeline of a workflow: the list of stages, then each job.
pub open spec fn spec_render(w: Workflow) -> Seq<char> {
    "stages:\n"@ + indented("  - "@, w.stages@.map_values(|s: crate::ir::Stage| s.name@))
        + stages_jobs_text(all_job_names(w), w.stages@, w.strategy)
}

/// The GitLab CI pipeline of a workflow.
pub fn render(workflow: &Workflow) -> (r: String)
    ensures
        r@ == spec_render(*workflow),
{
    let conflicts = conflicting_job_names(workflow);
    let ghost names = all_job_names(*workflow);
    let mut out = String::new();
    out.append("stages:\n");
    proof {
        reveal_strlit("stages:\n");
    }
    let ghost sn = workflow.stages@.map_values(|s: crate::ir::Stage| s.name@);
    let ghost h = out@;
    let mut i: usize = 0;
    while i < workflow.stages.len()
        invariant
            0 <= i <= workflow.stages@.len(),
            sn == workflow.stages@.map_values(|s: crate::ir::Stage| s.name@),
            out@ == h + indented("  - "@, sn.take(i as int)),
        decreases workflow.stages@.len() - i,
    {
        push_line(&mut out, "  - ", workflow.stages[i].name.as_str());
        assert(sn.take(i + 1).drop_last() =~= sn.take(i as int));
        i = i + 1;
    }
    assert(sn.take(sn.len() as int) =~= sn);
    let ghost h2 = out@;
    let mut s: usize = 0;
    while s < workflow.stages.len()
        invariant
            0 <= s <= workflow.stages@.len(),
            names == all_job_names(*workflow),
            forall|x: Seq<char>| #[trigger] is_conflict(names, x) <==> listed(conflicts@, x),
            out@ == h2 + stages_jobs_text(names, workflow.stages@.take(s as int), workflow.strategy),
        decreases workflow.stages@.len() - s,
    {
        let jobs = &workflow.stages[s].jobs;
        let ghost h3 = out@;
        let mut j: usize = 0;
        while j < jobs.len()
            invariant
                0 <= j <= jobs@.len(),
                forall|x: Seq<char>| #[trigger] is_conflict(names, x) <==> listed(conflicts@, x),
                out@ == h3 + jobs_text(names, jobs@.take(j as int), workflow.strategy),
            decreases jobs@.len() - j,
        {
            out.append("\n");
            proof {
                reveal_strlit("\n");
            }
            render_job(&mut out, &jobs[j], &conflicts, workflow.strategy, Ghost(names));
            assert(jobs@.take(j + 1).drop_last() =~= jobs@.take(j as int));
            j = j + 1;
        }
        assert(jobs@.take(jobs@.len() as int) =~= jobs@);
        assert(workflow.stages@.take(s + 1).drop_last() =~= workflow.stages@.take(s as int));
        s = s + 1;
    }
    assert(workflow.stages@.take(workflow.stages@.len() as int) =~= workflow.stages@);
    out
}

} // verus!

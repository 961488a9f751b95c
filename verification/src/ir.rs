use vstd::prelude::*;

use crate::text::{cat, concat, str_eq};

verus! {

// ─── IR types ────────────────────────────────────────────────────────────────

/// When the jobs of a workflow run by default.
#[derive(Debug, Clone, Copy, PartialEq, Eq, Structural)]
pub enum WorkflowStrategy {
    NoRules,
    DefaultBranch,
    Reviews,
    DefaultBranchAndReviews,
}

impl Default for WorkflowStrategy {
    fn default() -> (r: Self)
        ensures
            r == WorkflowStrategy::NoRules,
    {
        WorkflowStrategy::NoRules
    }
}

/// A lowered workflow: concrete stages and jobs, with templates inlined.
#[derive(Debug)]
pub struct Workflow {
    pub stages: Vec<Stage>,
    pub strategy: WorkflowStrategy,
}

#[derive(Debug)]
pub struct Stage {
    pub name: String,
    pub jobs: Vec<Job>,
}

#[derive(Debug)]
pub struct Job {
    pub name: String,
    pub stage: String,
    pub image: Option<String>,
    /// Fully resolved script lines, with any inherited template steps inlined.
    pub script: Vec<String>,
    pub needs: Vec<JobRef>,
    pub artifacts: Vec<String>,
    /// Names of environment variables this job exports to downstream jobs.
    pub env: Vec<String>,
    /// CI variables passed directly to this job.
    pub variables: Vec<(String, String)>,
}

/// A reference to a job: `stage.job`.
#[derive(Debug)]
pub struct JobRef {
    pub stage: String,
    pub job: String,
}

/// A job dependency that can't be satisfied: on itself, on a job that doesn't
/// exist, on a job in a later stage, or part of a cycle between jobs in the
/// same stage.
#[derive(Debug)]
pub struct DependencyError {
    /// Stage of the job that declares (or inherits) the dependency.
    pub stage: String,
    /// Name of the job that declares (or inherits) the dependency.
    pub job: String,
    pub message: String,
}

// ─── views ───────────────────────────────────────────────────────────────────

pub open spec fn opt_view(o: Option<String>) -> Option<Seq<char>> {
    match o {
        Some(s) => Some(s@),
        None => None,
    }
}

pub open spec fn strs_view(v: Seq<String>) -> Seq<Seq<char>> {
    v.map_values(|s: String| s@)
}

pub open spec fn pairs_view(v: Seq<(String, String)>) -> Seq<(Seq<char>, Seq<char>)> {
    v.map_values(|p: (String, String)| (p.0@, p.1@))
}

pub open spec fn refs_view(v: Seq<JobRef>) -> Seq<(Seq<char>, Seq<char>)> {
    v.map_values(|r: JobRef| (r.stage@, r.job@))
}

// ─── copying ─────────────────────────────────────────────────────────────────

pub fn clone_opt(o: &Option<String>) -> (r: Option<String>)
    ensures
        opt_view(r) == opt_view(*o),
{
    match o {
        Some(s) => Some(s.clone()),
        None => None,
    }
}

pub fn clone_strs(v: &Vec<String>) -> (r: Vec<String>)
    ensures
        strs_view(r@) == strs_view(v@),
{
    let mut r: Vec<String> = Vec::new();
    let mut i: usize = 0;
    while i < v.len()
        invariant
            0 <= i <= v@.len(),
            r@.len() == i,
            forall|j: int| 0 <= j < i ==> #[trigger] r@[j]@ == v@[j]@,
        decreases v@.len() - i,
    {
        r.push(v[i].clone());
        i = i + 1;
    }
    assert(strs_view(r@) =~= strs_view(v@));
    r
}

pub fn clone_pairs(v: &Vec<(String, String)>) -> (r: Vec<(String, String)>)
    ensures
        pairs_view(r@) == pairs_view(v@),
{
    let mut r: Vec<(String, String)> = Vec::new();
    let mut i: usize = 0;
    while i < v.len()
        invariant
            0 <= i <= v@.len(),
            r@.len() == i,
            forall|j: int| 0 <= j < i ==> #[trigger] r@[j].0@ == v@[j].0@ && r@[j].1@ == v@[j].1@,
        decreases v@.len() - i,
    {
        r.push((v[i].0.clone(), v[i].1.clone()));
        i = i + 1;
    }
    assert(pairs_view(r@) =~= pairs_view(v@));
    r
}

impl JobRef {
    pub fn copy(&self) -> (r: JobRef)
        ensures
            r.stage@ == self.stage@,
            r.job@ == self.job@,
    {
        JobRef { stage: self.stage.clone(), job: self.job.clone() }
    }
}

pub fn clone_refs(v: &Vec<JobRef>) -> (r: Vec<JobRef>)
    ensures
        refs_view(r@) == refs_view(v@),
{
    let mut r: Vec<JobRef> = Vec::new();
    let mut i: usize = 0;
    while i < v.len()
        invariant
            0 <= i <= v@.len(),
            r@.len() == i,
            forall|j: int| 0 <= j < i ==> #[trigger] r@[j].stage@ == v@[j].stage@ && r@[j].job@ == v@[j].job@,
        decreases v@.len() - i,
    {
        r.push(v[i].copy());
        i = i + 1;
    }
    assert(refs_view(r@) =~= refs_view(v@));
    r
}

// ─── queries ─────────────────────────────────────────────────────────────────

/// Index of the first stage named `name`, or the number of stages.
pub open spec fn stage_index(stages: Seq<Stage>, name: Seq<char>, from: int) -> int
    decreases stages.len() - from,
{
    if from < 0 || from >= stages.len() {
        stages.len() as int
    } else if stages[from].name@ == name {
        from
    } else {
        stage_index(stages, name, from + 1)
    }
}

/// Index of the first job named `name`, or the number of jobs.
pub open spec fn job_index(jobs: Seq<Job>, name: Seq<char>, from: int) -> int
    decreases jobs.len() - from,
{
    if from < 0 || from >= jobs.len() {
        jobs.len() as int
    } else if jobs[from].name@ == name {
        from
    } else {
        job_index(jobs, name, from + 1)
    }
}

/// The job named `name` in the first stage named `stage`, if any.
pub open spec fn spec_job(w: Workflow, stage: Seq<char>, name: Seq<char>) -> Option<Job> {
    let si = stage_index(w.stages@, stage, 0);
    if si < w.stages@.len() {
        let jobs = w.stages@[si].jobs@;
        let ji = job_index(jobs, name, 0);
        if ji < jobs.len() {
            Some(jobs[ji])
        } else {
            None
        }
    } else {
        None
    }
}

pub proof fn lemma_stage_index(stages: Seq<Stage>, name: Seq<char>, from: int)
    requires
        0 <= from <= stages.len(),
    ensures
        from <= stage_index(stages, name, from) <= stages.len(),
        stage_index(stages, name, from) < stages.len() ==> stages[stage_index(stages, name, from)].name@ == name,
        forall|i: int| from <= i < stage_index(stages, name, from) ==> stages[i].name@ != name,
    decreases stages.len() - from,
{
    if from < stages.len() && stages[from].name@ != name {
        lemma_stage_index(stages, name, from + 1);
    }
}

/// Position of the first stage called `name`.
fn find_stage(stages: &Vec<Stage>, name: &str) -> (r: Option<usize>)
    ensures
        r matches Some(i) ==> i == stage_index(stages@, name@, 0) && i < stages@.len(),
        r is None ==> stage_index(stages@, name@, 0) == stages@.len(),
{
    let mut i: usize = 0;
    while i < stages.len()
        invariant
            0 <= i <= stages@.len(),
            stage_index(stages@, name@, 0) == stage_index(stages@, name@, i as int),
        decreases stages@.len() - i,
    {
        if str_eq(stages[i].name.as_str(), name) {
            return Some(i);
        }
        i = i + 1;
    }
    None
}

/// Position of the first job called `name`.
fn find_job(jobs: &Vec<Job>, name: &str) -> (r: Option<usize>)
    ensures
        r matches Some(i) ==> i == job_index(jobs@, name@, 0) && i < jobs@.len(),
        r is None ==> job_index(jobs@, name@, 0) == jobs@.len(),
{
    let mut i: usize = 0;
    while i < jobs.len()
        invariant
            0 <= i <= jobs@.len(),
            job_index(jobs@, name@, 0) == job_index(jobs@, name@, i as int),
        decreases jobs@.len() - i,
    {
        if str_eq(jobs[i].name.as_str(), name) {
            return Some(i);
        }
        i = i + 1;
    }
    None
}

impl Workflow {
    /// Look up a job by stage name and job name.
    pub fn job(&self, stage: &str, name: &str) -> (r: Option<&Job>)
        ensures
            r matches Some(j) ==> spec_job(*self, stage@, name@) == Some(*j),
            r is None ==> spec_job(*self, stage@, name@) is None,
    {
        match find_stage(&self.stages, stage) {
            None => None,
            Some(si) => match find_job(&self.stages[si].jobs, name) {
                None => None,
                Some(ji) => Some(&self.stages[si].jobs[ji]),
            },
        }
    }
}

/// `stage.name`.
pub open spec fn spec_full_name(stage: Seq<char>, name: Seq<char>) -> Seq<char> {
    stage + seq!['.'] + name
}

/// The jobs that `needs` refer to and that exist, in order.
pub open spec fn spec_dependency_jobs(needs: Seq<JobRef>, w: Workflow) -> Seq<Job>
    decreases needs.len(),
{
    if needs.len() == 0 {
        Seq::empty()
    } else {
        let rest = spec_dependency_jobs(needs.drop_last(), w);
        match spec_job(w, needs.last().stage@, needs.last().job@) {
            Some(j) => rest.push(j),
            None => rest,
        }
    }
}

impl Job {
    /// The canonical `stage.job` identifier.
    pub fn full_name(&self) -> (r: String)
        ensures
            r@ == spec_full_name(self.stage@, self.name@),
    {
        let mut r = self.stage.clone();
        r.append(".");
        r.append(self.name.as_str());
        proof {
            reveal_strlit(".");
            assert(r@ =~= spec_full_name(self.stage@, self.name@));
        }
        r
    }

    /// The jobs of `workflow` this job depends on.
    pub fn dependency_jobs<'w>(&self, workflow: &'w Workflow) -> (r: Vec<&'w Job>)
        ensures
            r@.len() == spec_dependency_jobs(self.needs@, *workflow).len(),
            forall|i: int| 0 <= i < r@.len() ==> *r@[i] == spec_dependency_jobs(self.needs@, *workflow)[i],
    {
        let mut r: Vec<&'w Job> = Vec::new();
        let mut i: usize = 0;
        while i < self.needs.len()
            invariant
                0 <= i <= self.needs@.len(),
                r@.len() == spec_dependency_jobs(self.needs@.take(i as int), *workflow).len(),
                forall|k: int| 0 <= k < r@.len() ==> *r@[k] == spec_dependency_jobs(self.needs@.take(i as int), *workflow)[k],
            decreases self.needs@.len() - i,
        {
            assert(self.needs@.take(i + 1).drop_last() =~= self.needs@.take(i as int));
            assert(self.needs@.take(i + 1).last() == self.needs@[i as int]);
            match workflow.job(self.needs[i].stage.as_str(), self.needs[i].job.as_str()) {
                Some(j) => r.push(j),
                None => {},
            }
            i = i + 1;
        }
        assert(self.needs@.take(self.needs@.len() as int) =~= self.needs@);
        r
    }

    /// `true` if this job depends on another job in its own stage.
    pub fn has_same_stage_dependency(&self) -> (r: bool)
        ensures
            r == (exists|i: int|
                0 <= i < self.needs@.len() && #[trigger] self.needs@[i].stage@ == self.stage@
                    && self.needs@[i].job@ != self.name@),
    {
        let mut i: usize = 0;
        while i < self.needs.len()
            invariant
                0 <= i <= self.needs@.len(),
                forall|k: int| 0 <= k < i ==> !(#[trigger] self.needs@[k].stage@ == self.stage@ && self.needs@[k].job@ != self.name@),
            decreases self.needs@.len() - i,
        {
            if str_eq(self.needs[i].stage.as_str(), self.stage.as_str()) && !str_eq(self.needs[i].job.as_str(), self.name.as_str()) {
                return true;
            }
            i = i + 1;
        }
        false
    }
}

// ─── dependency errors ───────────────────────────────────────────────────────

/// What is wrong with one dependency of a job in stage `stage_idx`, if anything.
pub open spec fn dep_problem(w: Workflow, stage_idx: int, job: Job, dep: JobRef) -> Option<Seq<char>> {
    let full = spec_full_name(job.stage@, job.name@);
    let dep_full = spec_full_name(dep.stage@, dep.job@);
    let dep_idx = stage_index(w.stages@, dep.stage@, 0);
    if dep.stage@ == job.stage@ && dep.job@ == job.name@ {
        Some(seq!['j','o','b',' ','`'] + full + seq!['`',' ','d','e','p','e','n','d','s',' ','o','n',' ','i','t','s','e','l','f'])
    } else if dep_idx >= w.stages@.len() {
        Some(seq!['j','o','b',' ','`'] + full + seq!['`',' ','d','e','p','e','n','d','s',' ','o','n',' ','`'] + dep_full
            + seq!['`',',',' ','b','u','t',' ','t','h','e','r','e',' ','i','s',' ','n','o',' ','s','t','a','g','e',' ','`']
            + dep.stage@ + seq!['`'])
    } else if spec_job(w, dep.stage@, dep.job@) is None {
        Some(seq!['j','o','b',' ','`'] + full + seq!['`',' ','d','e','p','e','n','d','s',' ','o','n',' ','`'] + dep_full
            + seq!['`',',',' ','b','u','t',' ','s','t','a','g','e',' ','`'] + dep.stage@
            + seq!['`',' ','h','a','s',' ','n','o',' ','j','o','b',' ','`'] + dep.job@ + seq!['`'])
    } else if dep_idx > stage_idx {
        Some(seq!['j','o','b',' ','`'] + full + seq!['`',' ','d','e','p','e','n','d','s',' ','o','n',' ','`'] + dep_full
            + seq!['`',' ','i','n',' ','l','a','t','e','r',' ','s','t','a','g','e',' ','`'] + dep.stage@
            + seq!['`',';',' ','d','e','p','e','n','d','e','n','c','i','e','s',' ','m','u','s','t',' ','b','e',' ','o','n',' ','j','o','b','s',' ','i','n',' ','t','h','e',' ','s','a','m','e',' ','o','r',' ','a','n',' ','e','a','r','l','i','e','r',' ','s','t','a','g','e'])
    } else {
        None
    }
}

/// The problems with the first `k` dependencies of `job`.
pub open spec fn job_dep_problems(w: Workflow, stage_idx: int, job: Job, k: int) -> Seq<(Seq<char>, Seq<char>, Seq<char>)>
    decreases k,
{
    if k <= 0 || k > job.needs@.len() {
        Seq::empty()
    } else {
        let rest = job_dep_problems(w, stage_idx, job, k - 1);
        match dep_problem(w, stage_idx, job, job.needs@[k - 1]) {
            Some(m) => rest.push((job.stage@, job.name@, m)),
            None => rest,
        }
    }
}

/// The problems with the dependencies of the first `k` jobs of a stage.
pub open spec fn jobs_dep_problems(w: Workflow, stage_idx: int, jobs: Seq<Job>, k: int) -> Seq<(Seq<char>, Seq<char>, Seq<char>)>
    decreases k,
{
    if k <= 0 || k > jobs.len() {
        Seq::empty()
    } else {
        jobs_dep_problems(w, stage_idx, jobs, k - 1) + job_dep_problems(w, stage_idx, jobs[k - 1], jobs[k - 1].needs@.len() as int)
    }
}

pub open spec fn dep_errors_view(v: Seq<DependencyError>) -> Seq<(Seq<char>, Seq<char>, Seq<char>)> {
    v.map_values(|e: DependencyError| (e.stage@, e.job@, e.message@))
}

/// The message for one dependency of a job, if it can't be satisfied.
fn dependency_problem(workflow: &Workflow, stage_idx: usize, job: &Job, dep: &JobRef) -> (r: Option<String>)
    requires
        stage_idx < workflow.stages@.len(),
    ensures
        opt_view(r) == dep_problem(*workflow, stage_idx as int, *job, *dep),
{
    let dep_stage_idx = find_stage(&workflow.stages, dep.stage.as_str());
    let full = job.full_name();
    let mut dep_full = dep.stage.clone();
    dep_full.append(".");
    dep_full.append(dep.job.as_str());
    proof {
        reveal_strlit(".");
        assert(dep_full@ =~= spec_full_name(dep.stage@, dep.job@));
    }
    let ghost expected = dep_problem(*workflow, stage_idx as int, *job, *dep);
    if str_eq(dep.stage.as_str(), job.stage.as_str()) && str_eq(dep.job.as_str(), job.name.as_str()) {
        let mut m = String::new();
        m.append("job `");
        m.append(full.as_str());
        m.append("` depends on itself");
        proof {
            reveal_strlit("job `");
            reveal_strlit("` depends on itself");
            assert(m@ =~= expected.unwrap());
        }
        Some(m)
    } else if dep_stage_idx.is_none() {
        let mut m = String::new();
        m.append("job `");
        m.append(full.as_str());
        m.append("` depends on `");
        m.append(dep_full.as_str());
        m.append("`, but there is no stage `");
        m.append(dep.stage.as_str());
        m.append("`");
        proof {
            reveal_strlit("job `");
            reveal_strlit("` depends on `");
            reveal_strlit("`, but there is no stage `");
            reveal_strlit("`");
            assert(m@ =~= expected.unwrap());
        }
        Some(m)
    } else if workflow.job(dep.stage.as_str(), dep.job.as_str()).is_none() {
        let mut m = String::new();
        m.append("job `");
        m.append(full.as_str());
        m.append("` depends on `");
        m.append(dep_full.as_str());
        m.append("`, but stage `");
        m.append(dep.stage.as_str());
        m.append("` has no job `");
        m.append(dep.job.as_str());
        m.append("`");
        proof {
            reveal_strlit("job `");
            reveal_strlit("` depends on `");
            reveal_strlit("`, but stage `");
            reveal_strlit("` has no job `");
            reveal_strlit("`");
            assert(m@ =~= expected.unwrap());
        }
        Some(m)
    } else if dep_stage_idx.unwrap() > stage_idx {
        let mut m = String::new();
        m.append("job `");
        m.append(full.as_str());
        m.append("` depends on `");
        m.append(dep_full.as_str());
        m.append("` in later stage `");
        m.append(dep.stage.as_str());
        m.append("`; dependencies must be on jobs in the same or an earlier stage");
        proof {
            reveal_strlit("job `");
            reveal_strlit("` depends on `");
            reveal_strlit("` in later stage `");
            reveal_strlit("`; dependencies must be on jobs in the same or an earlier stage");
            assert(m@ =~= expected.unwrap());
        }
        Some(m)
    } else {
        None
    }
}

/// Where a dependency of `job` points within `stage`: the index of the job it
/// names, for a dependency on another job of the same stage; `-1` otherwise.
pub open spec fn dep_target(stage: Stage, job: Job, dep: JobRef) -> int {
    if dep.stage@ != stage.name@ || dep.job@ == job.name@ {
        -1
    } else {
        let k = job_index(stage.jobs@, dep.job@, 0);
        if k < stage.jobs@.len() {
            k
        } else {
            -1
        }
    }
}

/// Job `a` of the stage depends on job `b` of the same stage.
pub open spec fn same_stage_edge(stage: Stage, a: int, b: int) -> bool {
    &&& 0 <= a < stage.jobs@.len()
    &&& exists|d: int| 0 <= d < stage.jobs@[a].needs@.len()
        && #[trigger] dep_target(stage, stage.jobs@[a], stage.jobs@[a].needs@[d]) == b
}

/// `a -> b -> c`.
pub open spec fn join_arrow(names: Seq<Seq<char>>) -> Seq<char>
    decreases names.len(),
{
    if names.len() == 0 {
        Seq::empty()
    } else if names.len() == 1 {
        names[0]
    } else {
        join_arrow(names.drop_last()) + seq![' ', '-', '>', ' '] + names.last()
    }
}

/// `e` reports a cycle of dependencies between the jobs of `stage`: a walk
/// along same-stage dependencies that ends where it starts.
pub open spec fn is_cycle_report(stage: Stage, e: (Seq<char>, Seq<char>, Seq<char>)) -> bool {
    exists|walk: Seq<int>| #[trigger] cycle_walk(stage, walk, e)
}

pub open spec fn cycle_walk(stage: Stage, walk: Seq<int>, e: (Seq<char>, Seq<char>, Seq<char>)) -> bool {
    &&& walk.len() >= 2
    &&& walk[0] == walk.last()
    &&& forall|k: int| 0 <= k < walk.len() ==> 0 <= #[trigger] walk[k] < stage.jobs@.len()
    &&& forall|k: int| 0 <= k < walk.len() - 1 ==> same_stage_edge(stage, #[trigger] walk[k], walk[k + 1])
    &&& e.0 == stage.name@
    &&& e.1 == stage.jobs@[walk.last()].name@
    &&& e.2 == seq!['d','e','p','e','n','d','e','n','c','y',' ','c','y','c','l','e',' ','i','n',' ','s','t','a','g','e',' ','`']
        + stage.name@ + seq!['`', ':', ' '] + join_arrow(walk_names(stage, walk))
}

/// The dependency errors of a workflow, given the cycle reports of each stage.
pub open spec fn spec_dependency_errors(w: Workflow, cycles: Seq<Seq<(Seq<char>, Seq<char>, Seq<char>)>>, k: int) -> Seq<(Seq<char>, Seq<char>, Seq<char>)>
    decreases k,
{
    if k <= 0 || k > w.stages@.len() {
        Seq::empty()
    } else {
        spec_dependency_errors(w, cycles, k - 1)
            + jobs_dep_problems(w, k - 1, w.stages@[k - 1].jobs@, w.stages@[k - 1].jobs@.len() as int)
            + cycles[k - 1]
    }
}

/// Find all dependencies in `workflow` which can't be satisfied.
///
/// `es` are the dependency errors of `w`, with `cycles` the cycle reports of
/// each of its stages: each describes a cycle of that stage, and a stage has
/// some exactly when its jobs depend on each other in a cycle.
pub open spec fn dependency_report_with(
    w: Workflow,
    es: Seq<(Seq<char>, Seq<char>, Seq<char>)>,
    cycles: Seq<Seq<(Seq<char>, Seq<char>, Seq<char>)>>,
) -> bool {
    &&& cycles.len() == w.stages@.len()
    &&& es == spec_dependency_errors(w, cycles, w.stages@.len() as int)
    &&& forall|s: int, i: int| 0 <= s < cycles.len() && 0 <= i < cycles[s].len()
        ==> is_cycle_report(w.stages@[s], #[trigger] cycles[s][i])
    &&& forall|s: int| 0 <= s < cycles.len()
        ==> (#[trigger] cycles[s].len() > 0 <==> has_dependency_cycle(w.stages@[s]))
}

/// `es` are the dependency errors of `w`, for some cycle reports.
pub open spec fn dependency_report(w: Workflow, es: Seq<(Seq<char>, Seq<char>, Seq<char>)>) -> bool {
    exists|cycles: Seq<Seq<(Seq<char>, Seq<char>, Seq<char>)>>| #[trigger] dependency_report_with(w, es, cycles)
}

/// The cycle reports of each stage of `w`.
pub open spec fn workflow_cycles(w: Workflow) -> Seq<Seq<DepErrorView>> {
    w.stages@.map_values(|s: Stage| stage_cycle_reports(s))
}

/// For each stage in turn: the dependencies of its jobs on themselves, on
/// stages or jobs that don't exist, or on later stages, in order; then the
/// cycles between its jobs, as the depth-first search finds them.
pub fn dependency_errors(workflow: &Workflow) -> (r: Vec<DependencyError>)
    ensures
        dependency_report(*workflow, dep_errors_view(r@)),
        dependency_report_with(*workflow, dep_errors_view(r@), workflow_cycles(*workflow)),
{
    let mut errors: Vec<DependencyError> = Vec::new();
    let ghost mut cycles: Seq<Seq<(Seq<char>, Seq<char>, Seq<char>)>> = Seq::empty();
    let mut si: usize = 0;
    while si < workflow.stages.len()
        invariant
            0 <= si <= workflow.stages@.len(),
            cycles.len() == si,
            dep_errors_view(errors@) == spec_dependency_errors(*workflow, cycles, si as int),
            forall|s: int, i: int| 0 <= s < cycles.len() && 0 <= i < cycles[s].len()
                ==> is_cycle_report(workflow.stages@[s], #[trigger] cycles[s][i]),
            forall|s: int| 0 <= s < cycles.len()
                ==> (#[trigger] cycles[s].len() > 0 <==> has_dependency_cycle(workflow.stages@[s])),
            cycles =~= workflow_cycles(*workflow).take(si as int),
        decreases workflow.stages@.len() - si,
    {
        let stage = &workflow.stages[si];
        let ghost before = dep_errors_view(errors@);
        let mut ji: usize = 0;
        while ji < stage.jobs.len()
            invariant
                0 <= ji <= stage.jobs@.len(),
                si < workflow.stages@.len(),
                *stage == workflow.stages@[si as int],
                dep_errors_view(errors@) == before + jobs_dep_problems(*workflow, si as int, stage.jobs@, ji as int),
            decreases stage.jobs@.len() - ji,
        {
            let job = &stage.jobs[ji];
            let ghost before_job = dep_errors_view(errors@);
            let mut di: usize = 0;
            while di < job.needs.len()
                invariant
                    0 <= di <= job.needs@.len(),
                    si < workflow.stages@.len(),
                    dep_errors_view(errors@) == before_job + job_dep_problems(*workflow, si as int, *job, di as int),
                decreases job.needs@.len() - di,
            {
                match dependency_problem(workflow, si, job, &job.needs[di]) {
                    Some(message) => {
                        let ghost old_errors = errors@;
                        errors.push(DependencyError { stage: job.stage.clone(), job: job.name.clone(), message });
                        proof {
                            assert(dep_errors_view(errors@) =~= dep_errors_view(old_errors).push(dep_errors_view(errors@).last()));
                        }
                    },
                    None => {},
                }
                di = di + 1;
            }
            ji = ji + 1;
            proof {
                assert(jobs_dep_problems(*workflow, si as int, stage.jobs@, ji as int)
                    =~= jobs_dep_problems(*workflow, si as int, stage.jobs@, ji - 1) + job_dep_problems(*workflow, si as int, *job, job.needs@.len() as int));
            }
        }
        let ghost mid = dep_errors_view(errors@);
        same_stage_cycle_errors(stage, &mut errors);
        proof {
            let found = dep_errors_view(errors@).subrange(mid.len() as int, dep_errors_view(errors@).len() as int);
            assert(dep_errors_view(errors@) =~= mid + found);
            let ghost old_cycles = cycles;
            assert(found =~= stage_cycle_reports(*stage));
            cycles = cycles.push(found);
            assert(cycles =~= workflow_cycles(*workflow).take(si + 1));
            assert(spec_dependency_errors(*workflow, cycles, si as int) == spec_dependency_errors(*workflow, old_cycles, si as int)) by {
                lemma_dependency_errors_prefix(*workflow, old_cycles, cycles, si as int);
            }
        }
        si = si + 1;
    }
    proof {
        assert(dependency_report_with(*workflow, dep_errors_view(errors@), cycles));
        assert(cycles =~= workflow_cycles(*workflow));
    }
    errors
}

proof fn lemma_dependency_errors_prefix(
    w: Workflow,
    a: Seq<Seq<(Seq<char>, Seq<char>, Seq<char>)>>,
    b: Seq<Seq<(Seq<char>, Seq<char>, Seq<char>)>>,
    k: int,
)
    requires
        0 <= k <= a.len(),
        k <= b.len(),
        forall|i: int| 0 <= i < k ==> a[i] == b[i],
    ensures
        spec_dependency_errors(w, a, k) == spec_dependency_errors(w, b, k),
    decreases k,
{
    if k > 0 {
        lemma_dependency_errors_prefix(w, a, b, k - 1);
    }
}

/// The progress of the depth-first search for cycles.
#[derive(Clone, Copy, PartialEq, Eq, Structural)]
pub enum Visit {
    Unvisited,
    InProgress,
    Done,
}

pub open spec fn unvisited_count(v: Seq<Visit>) -> nat
    decreases v.len(),
{
    if v.len() == 0 {
        0
    } else {
        unvisited_count(v.drop_last()) + if v.last() == Visit::Unvisited { 1nat } else { 0nat }
    }
}

/// Marking job `i` as anything but unvisited leaves one fewer unvisited job
/// when it was unvisited, and as many otherwise.
pub proof fn lemma_unvisited_update(v: Seq<Visit>, i: int, x: Visit)
    requires
        0 <= i < v.len(),
        x != Visit::Unvisited,
    ensures
        unvisited_count(v.update(i, x)) + (if v[i] == Visit::Unvisited { 1nat } else { 0nat }) == unvisited_count(v),
    decreases v.len(),
{
    let u = v.update(i, x);
    if i == v.len() - 1 {
        assert(u.drop_last() =~= v.drop_last());
    } else {
        assert(u.drop_last() =~= v.drop_last().update(i, x));
        lemma_unvisited_update(v.drop_last(), i, x);
    }
}

/// The search state: `visits` and the current `path` agree, and the path
/// follows dependencies.
pub open spec fn dfs_ok(stage: Stage, visits: Seq<Visit>, path: Seq<usize>) -> bool {
    &&& visits.len() == stage.jobs@.len()
    &&& forall|k: int| 0 <= k < path.len() ==> #[trigger] path[k] < visits.len()
    &&& forall|k: int| 0 <= k < path.len() - 1 ==> same_stage_edge(stage, #[trigger] path[k] as int, path[k + 1] as int)
    &&& forall|i: int| 0 <= i < visits.len() ==> (#[trigger] visits[i] == Visit::InProgress <==> path.contains(i as usize))
}

pub open spec fn all_cycle_reports(stage: Stage, es: Seq<(Seq<char>, Seq<char>, Seq<char>)>) -> bool {
    forall|i: int| 0 <= i < es.len() ==> is_cycle_report(stage, #[trigger] es[i])
}

/// `walk` follows same-stage dependencies from a job back to itself.
pub open spec fn dep_cycle(stage: Stage, walk: Seq<int>) -> bool {
    &&& walk.len() >= 2
    &&& walk[0] == walk.last()
    &&& forall|k: int| 0 <= k < walk.len() ==> 0 <= #[trigger] walk[k] < stage.jobs@.len()
    &&& forall|k: int| 0 <= k < walk.len() - 1 ==> same_stage_edge(stage, #[trigger] walk[k], walk[k + 1])
}

/// Some jobs of the stage depend on each other in a cycle.
pub open spec fn has_dependency_cycle(stage: Stage) -> bool {
    exists|walk: Seq<int>| #[trigger] dep_cycle(stage, walk)
}

pub open spec fn all_done(visits: Seq<Visit>, walk: Seq<int>) -> bool {
    forall|k: int| 0 <= k < walk.len() ==> visits[#[trigger] walk[k]] == Visit::Done
}

/// The finished jobs depend only on finished jobs, and no cycle runs through
/// finished jobs alone.
pub open spec fn dfs_closed(stage: Stage, visits: Seq<Visit>) -> bool {
    &&& forall|u: int, v: int|
        #![trigger same_stage_edge(stage, u, v)]
        0 <= u < visits.len() && 0 <= v && visits[u] == Visit::Done && same_stage_edge(stage, u, v)
            ==> v < visits.len() && visits[v] == Visit::Done
    &&& forall|walk: Seq<int>| #[trigger] dep_cycle(stage, walk) ==> !all_done(visits, walk)
}

pub open spec fn done_kept(a: Seq<Visit>, b: Seq<Visit>) -> bool {
    forall|i: int| 0 <= i < a.len() && a[i] == Visit::Done ==> #[trigger] b[i] == Visit::Done
}

/// Along a dependency walk from a finished job, every job is finished.
proof fn lemma_walk_done(stage: Stage, visits: Seq<Visit>, walk: Seq<int>, s: int, j: int)
    requires
        dfs_closed(stage, visits),
        visits.len() == stage.jobs@.len(),
        forall|k: int| 0 <= k < walk.len() ==> 0 <= #[trigger] walk[k] < stage.jobs@.len(),
        forall|k: int| 0 <= k < walk.len() - 1 ==> same_stage_edge(stage, #[trigger] walk[k], walk[k + 1]),
        0 <= s <= j < walk.len(),
        visits[walk[s]] == Visit::Done,
    ensures
        visits[walk[j]] == Visit::Done,
    decreases j - s,
{
    if j > s {
        lemma_walk_done(stage, visits, walk, s, j - 1);
        assert(same_stage_edge(stage, walk[j - 1], walk[j]));
        assert(0 <= walk[j]);
    }
}

/// Finishing job `idx`, all of whose dependencies are finished, keeps the
/// search closed.
proof fn lemma_finish(stage: Stage, before: Seq<Visit>, idx: int)
    requires
        dfs_closed(stage, before),
        before.len() == stage.jobs@.len(),
        0 <= idx < before.len(),
        before[idx] != Visit::Done,
        forall|v: int| 0 <= v && #[trigger] same_stage_edge(stage, idx, v) ==> v < before.len() && before[v] == Visit::Done,
    ensures
        dfs_closed(stage, before.update(idx, Visit::Done)),
{
    let after = before.update(idx, Visit::Done);
    assert forall|u: int, v: int|
        0 <= u < after.len() && 0 <= v && after[u] == Visit::Done && #[trigger] same_stage_edge(stage, u, v)
            implies v < after.len() && after[v] == Visit::Done by {
        if u != idx {
            assert(before[u] == Visit::Done);
        }
    }
    assert forall|walk: Seq<int>| #[trigger] dep_cycle(stage, walk) implies !all_done(after, walk) by {
        if all_done(after, walk) {
            assert(after[walk[0]] == Visit::Done);
            if walk[0] == idx {
                assert(same_stage_edge(stage, walk[0], walk[1]));
                assert(0 <= walk[1]);
                lemma_walk_done(stage, before, walk, 1, walk.len() - 1);
                assert(before[walk.last()] == Visit::Done);
            } else {
                assert forall|k: int| 0 <= k < walk.len() implies before[#[trigger] walk[k]] == Visit::Done by {
                    lemma_walk_done(stage, before, walk, 0, k);
                }
                assert(all_done(before, walk));
            }
        }
    }
}

/// Only the finished jobs matter to `dfs_closed`.
proof fn lemma_closed_same_done(stage: Stage, a: Seq<Visit>, b: Seq<Visit>)
    requires
        dfs_closed(stage, a),
        a.len() == b.len(),
        a.len() == stage.jobs@.len(),
        forall|i: int| 0 <= i < a.len() ==> (#[trigger] a[i] == Visit::Done <==> b[i] == Visit::Done),
    ensures
        dfs_closed(stage, b),
{
    assert forall|u: int, v: int|
        0 <= u < b.len() && 0 <= v && b[u] == Visit::Done && #[trigger] same_stage_edge(stage, u, v)
            implies v < b.len() && b[v] == Visit::Done by {
        assert(a[u] == Visit::Done);
    }
    assert forall|walk: Seq<int>| #[trigger] dep_cycle(stage, walk) implies !all_done(b, walk) by {
        if all_done(b, walk) {
            assert forall|k: int| 0 <= k < walk.len() implies a[#[trigger] walk[k]] == Visit::Done by {
                assert(0 <= walk[k] < a.len());
                assert(b[walk[k]] == Visit::Done);
            }
            assert(all_done(a, walk));
        }
    }
}

/// A dependency error as plain values: stage, job and message.
pub type DepErrorView = (Seq<char>, Seq<char>, Seq<char>);

/// Index of the first `x` in `path` from `from` on, or its length.
pub open spec fn path_pos(path: Seq<usize>, x: usize, from: int) -> int
    decreases path.len() - from,
{
    if from < 0 || from >= path.len() {
        path.len() as int
    } else if path[from] == x {
        from
    } else {
        path_pos(path, x, from + 1)
    }
}

proof fn lemma_path_pos(path: Seq<usize>, x: usize, i: int, from: int)
    requires
        0 <= from <= i < path.len(),
        forall|k: int| 0 <= k < i ==> #[trigger] path[k] != x,
        path[i] == x,
    ensures
        path_pos(path, x, from) == i,
    decreases i - from,
{
    if from < i {
        lemma_path_pos(path, x, i, from + 1);
    }
}

/// The report of the cycle closed by a dependency on `dep`, which is on the
/// search `path`: from its place on the path back round to itself, reported
/// for that job.
pub open spec fn cycle_report_at(stage: Stage, path: Seq<usize>, dep: usize) -> DepErrorView {
    let start = path_pos(path, dep, 0);
    let walk = path.subrange(start, path.len() as int).map_values(|x: usize| x as int).push(dep as int);
    (
        stage.name@,
        stage.jobs@[dep as int].name@,
        seq!['d','e','p','e','n','d','e','n','c','y',' ','c','y','c','l','e',' ','i','n',' ','s','t','a','g','e',' ','`']
            + stage.name@ + seq!['`', ':', ' '] + join_arrow(walk_names(stage, walk)),
    )
}

/// The depth-first search from job `idx`, if it is unvisited, with `path`
/// the jobs in progress: it follows each of the job's dependencies in order,
/// then marks it finished. Each dependency on a job in progress closes a
/// cycle, reported once, when it is found.
pub open spec fn dfs_visit(stage: Stage, v: Seq<Visit>, path: Seq<usize>, idx: int) -> (Seq<Visit>, Seq<DepErrorView>)
    decreases unvisited_count(v), 0nat, 0int,
{
    if !(0 <= idx < v.len() && v[idx] == Visit::Unvisited && idx < stage.jobs@.len()) {
        (v, Seq::empty())
    } else {
        let v1 = v.update(idx, Visit::InProgress);
        proof {
            lemma_unvisited_update(v, idx, Visit::InProgress);
        }
        let (v2, rs) = dfs_deps(stage, v1, path.push(idx as usize), idx, stage.jobs@[idx].needs@.len() as int);
        (v2.update(idx, Visit::Done), rs)
    }
}

/// Following dependency `d` of job `idx`.
pub open spec fn dfs_dep(stage: Stage, v: Seq<Visit>, path: Seq<usize>, idx: int, d: int) -> (Seq<Visit>, Seq<DepErrorView>)
    decreases unvisited_count(v), 1nat, 0int,
{
    if !(0 <= idx < stage.jobs@.len() && 0 <= d < stage.jobs@[idx].needs@.len()) {
        (v, Seq::empty())
    } else {
        let t = dep_target(stage, stage.jobs@[idx], stage.jobs@[idx].needs@[d]);
        if t < 0 || t >= v.len() {
            (v, Seq::empty())
        } else if v[t] == Visit::Unvisited {
            dfs_visit(stage, v, path, t)
        } else if v[t] == Visit::InProgress {
            (v, seq![cycle_report_at(stage, path, t as usize)])
        } else {
            (v, Seq::empty())
        }
    }
}

/// Following the first `d` dependencies of job `idx` in turn.
pub open spec fn dfs_deps(stage: Stage, v: Seq<Visit>, path: Seq<usize>, idx: int, d: int) -> (Seq<Visit>, Seq<DepErrorView>)
    decreases unvisited_count(v), 2nat, d,
{
    if d <= 0 {
        (v, Seq::empty())
    } else {
        let (v1, rs1) = dfs_deps(stage, v, path, idx, d - 1);
        if unvisited_count(v1) <= unvisited_count(v) {
            let (v2, rs2) = dfs_dep(stage, v1, path, idx, d - 1);
            (v2, rs1 + rs2)
        } else {
            (v1, rs1)
        }
    }
}

/// The search started from each of the first `k` jobs in turn.
pub open spec fn dfs_from(stage: Stage, v: Seq<Visit>, k: int) -> (Seq<Visit>, Seq<DepErrorView>)
    decreases k,
{
    if k <= 0 {
        (v, Seq::empty())
    } else {
        let (v1, rs1) = dfs_from(stage, v, k - 1);
        let (v2, rs2) = dfs_visit(stage, v1, Seq::empty(), k - 1);
        (v2, rs1 + rs2)
    }
}

/// The cycles of `stage`, as the depth-first search over its jobs in order
/// reports them.
pub open spec fn stage_cycle_reports(stage: Stage) -> Seq<DepErrorView> {
    dfs_from(stage, Seq::new(stage.jobs@.len(), |i: int| Visit::Unvisited), stage.jobs@.len() as int).1
}

/// Report each cycle formed by dependencies between jobs within `stage`.
///
/// Self-dependencies are excluded, as they are reported separately.
fn same_stage_cycle_errors(stage: &Stage, errors: &mut Vec<DependencyError>)
    ensures
        dep_errors_view(final(errors)@).len() >= dep_errors_view(old(errors)@).len(),
        dep_errors_view(final(errors)@).subrange(0, old(errors)@.len() as int) == dep_errors_view(old(errors)@),
        all_cycle_reports(*stage, dep_errors_view(final(errors)@).subrange(old(errors)@.len() as int, final(errors)@.len() as int)),
        final(errors)@.len() > old(errors)@.len() <==> has_dependency_cycle(*stage),
        dep_errors_view(final(errors)@) == dep_errors_view(old(errors)@) + stage_cycle_reports(*stage),
{
    let n = stage.jobs.len();
    let mut visits: Vec<Visit> = Vec::new();
    let mut k: usize = 0;
    while k < n
        invariant
            0 <= k <= n,
            n == stage.jobs@.len(),
            visits@.len() == k,
            forall|i: int| 0 <= i < k ==> visits@[i] == Visit::Unvisited,
        decreases n - k,
    {
        visits.push(Visit::Unvisited);
        k = k + 1;
    }
    let mut path: Vec<usize> = Vec::new();
    let ghost start = errors@.len();
    let ghost init = Seq::new(n as nat, |i: int| Visit::Unvisited);
    assert(visits@ =~= init);
    assert(dep_errors_view(errors@).subrange(start as int, errors@.len() as int) =~= Seq::<DepErrorView>::empty());
    proof {
        assert forall|walk: Seq<int>| #[trigger] dep_cycle(*stage, walk) implies !all_done(visits@, walk) by {
            assert(visits@[walk[0]] == Visit::Unvisited);
        }
    }
    let mut idx: usize = 0;
    while idx < n
        invariant
            0 <= idx <= n,
            n == stage.jobs@.len(),
            path@.len() == 0,
            dfs_ok(*stage, visits@, path@),
            start <= errors@.len(),
            dep_errors_view(errors@).subrange(0, start as int) == dep_errors_view(old(errors)@),
            old(errors)@.len() == start,
            all_cycle_reports(*stage, dep_errors_view(errors@).subrange(start as int, errors@.len() as int)),
            errors@.len() == start ==> dfs_closed(*stage, visits@),
            forall|i: int| 0 <= i < idx ==> #[trigger] visits@[i] == Visit::Done,
            init == Seq::new(n as nat, |i: int| Visit::Unvisited),
            (visits@, dep_errors_view(errors@).subrange(start as int, errors@.len() as int)) == dfs_from(*stage, init, idx as int),
        decreases n - idx,
    {
        let ghost ve0 = errors@;
        let ghost vv0 = visits@;
        if visits[idx] == Visit::Unvisited {
            let ghost ve = errors@;
            let ghost v0 = visits@;
            visit(idx, stage, &mut visits, &mut path, errors);
            proof {
                let a = dep_errors_view(ve);
                let b = dep_errors_view(errors@);
                assert(path@ =~= Seq::<usize>::empty());
                assert(b.subrange(0, ve.len() as int) == a);
                assert(b.subrange(start as int, errors@.len() as int) =~= a.subrange(start as int, ve.len() as int) + b.subrange(
                    ve.len() as int,
                    errors@.len() as int,
                ));
                lemma_subrange_chain(dep_errors_view(ve), dep_errors_view(errors@), start as int, ve.len() as int, *stage);
                assert(dep_errors_view(errors@).subrange(0, start as int) =~= dep_errors_view(ve).subrange(0, start as int));
                assert forall|i: int| 0 <= i < idx + 1 implies #[trigger] visits@[i] == Visit::Done by {
                    if i < idx {
                        assert(v0[i] == Visit::Done);
                    }
                }
            }
        } else {
            proof {
                assert(!path@.contains(idx));
                let a = dep_errors_view(errors@).subrange(start as int, errors@.len() as int);
                assert(a + Seq::<DepErrorView>::empty() =~= a);
            }
        }
        idx = idx + 1;
    }
    proof {
        assert(dep_errors_view(errors@) =~= dep_errors_view(old(errors)@) + dep_errors_view(errors@).subrange(start as int, errors@.len() as int));
        if errors@.len() == start {
            if has_dependency_cycle(*stage) {
                let walk = choose|walk: Seq<int>| #[trigger] dep_cycle(*stage, walk);
                assert forall|k: int| 0 <= k < walk.len() implies visits@[#[trigger] walk[k]] == Visit::Done by {
                    assert(0 <= walk[k] < n);
                }
                assert(all_done(visits@, walk));
            }
        } else {
            let found = dep_errors_view(errors@).subrange(start as int, errors@.len() as int);
            assert(is_cycle_report(*stage, found[0]));
            let walk = choose|walk: Seq<int>| #[trigger] cycle_walk(*stage, walk, found[0]);
            assert(dep_cycle(*stage, walk));
        }
    }
}

fn visit(idx: usize, stage: &Stage, visits: &mut Vec<Visit>, path: &mut Vec<usize>, errors: &mut Vec<DependencyError>)
    requires
        dfs_ok(*stage, old(visits)@, old(path)@),
        idx < old(visits)@.len(),
        old(visits)@[idx as int] == Visit::Unvisited,
        old(path)@.len() > 0 ==> same_stage_edge(*stage, old(path)@.last() as int, idx as int),
    ensures
        dfs_ok(*stage, final(visits)@, final(path)@),
        final(path)@ == old(path)@,
        unvisited_count(final(visits)@) < unvisited_count(old(visits)@),
        forall|i: int| 0 <= i < old(visits)@.len() ==> (#[trigger] final(visits)@[i] == Visit::InProgress <==> old(visits)@[i] == Visit::InProgress),
        dep_errors_view(final(errors)@).len() >= dep_errors_view(old(errors)@).len(),
        dep_errors_view(final(errors)@).subrange(0, old(errors)@.len() as int) == dep_errors_view(old(errors)@),
        all_cycle_reports(*stage, dep_errors_view(final(errors)@).subrange(old(errors)@.len() as int, final(errors)@.len() as int)),
        final(visits)@[idx as int] == Visit::Done,
        done_kept(old(visits)@, final(visits)@),
        final(errors)@.len() == old(errors)@.len() && dfs_closed(*stage, old(visits)@) ==> dfs_closed(*stage, final(visits)@),
        (final(visits)@, dep_errors_view(final(errors)@).subrange(old(errors)@.len() as int, final(errors)@.len() as int))
            == dfs_visit(*stage, old(visits)@, old(path)@, idx as int),
    decreases unvisited_count(old(visits)@), 0nat,
{
    let ghost v0 = visits@;
    let ghost p0 = path@;
    let ghost e0 = errors@.len();
    visits.set(idx, Visit::InProgress);
    path.push(idx);
    let n_visits = visits.len();
    proof {
        lemma_unvisited_update(v0, idx as int, Visit::InProgress);
        assert(!p0.contains(idx));
        assert forall|i: int| 0 <= i < visits@.len() implies (#[trigger] visits@[i] == Visit::InProgress <==> path@.contains(i as usize)) by {
            if i == idx {
                assert(path@.last() == idx);
            } else {
                if p0.contains(i as usize) {
                    let k = choose|k: int| 0 <= k < p0.len() && p0[k] == i as usize;
                    assert(path@[k] == i as usize);
                }
                if path@.contains(i as usize) {
                    let k = choose|k: int| 0 <= k < path@.len() && path@[k] == i as usize;
                    assert(path@ == p0.push(idx));
                    assert(path@[p0.len() as int] == idx);
                    assert(k < p0.len());
                    assert(p0[k] == i as usize);
                }
            }
        }
        assert forall|k: int| 0 <= k < path@.len() - 1 implies same_stage_edge(*stage, #[trigger] path@[k] as int, path@[k + 1] as int) by {
            if k < p0.len() - 1 {
                assert(path@[k] == p0[k] && path@[k + 1] == p0[k + 1]);
            } else {
                assert(path@[k] == p0.last());
            }
        }
    }
    proof {
        if errors@.len() == e0 && dfs_closed(*stage, v0) {
            lemma_closed_same_done(*stage, v0, visits@);
        }
    }
    let job = &stage.jobs[idx];
    proof {
        assert(visits@ == v0.update(idx as int, Visit::InProgress));
        assert(dep_errors_view(errors@).subrange(e0 as int, errors@.len() as int) =~= Seq::<DepErrorView>::empty());
    }
    let mut d: usize = 0;
    while d < job.needs.len()
        invariant
            0 <= d <= job.needs@.len(),
            *job == stage.jobs@[idx as int],
            idx < stage.jobs@.len(),
            done_kept(v0, visits@),
            errors@.len() == e0 && dfs_closed(*stage, v0) ==> dfs_closed(*stage, visits@),
            errors@.len() == e0 ==> forall|d2: int| 0 <= d2 < d && dep_target(*stage, *job, #[trigger] job.needs@[d2]) >= 0
                ==> visits@[dep_target(*stage, *job, job.needs@[d2])] == Visit::Done,
            dfs_ok(*stage, visits@, path@),
            path@ == p0.push(idx),
            visits@.len() == v0.len(),
            visits@[idx as int] == Visit::InProgress,
            unvisited_count(visits@) < unvisited_count(v0),
            forall|i: int| 0 <= i < v0.len() && i != idx ==> (#[trigger] visits@[i] == Visit::InProgress <==> v0[i] == Visit::InProgress),
            v0 == old(visits)@,
            p0 == old(path)@,
            e0 == old(errors)@.len(),
            e0 <= errors@.len(),
            dep_errors_view(errors@).subrange(0, e0 as int) == dep_errors_view(old(errors)@),
            all_cycle_reports(*stage, dep_errors_view(errors@).subrange(e0 as int, errors@.len() as int)),
            unvisited_count(visits@) <= unvisited_count(v0.update(idx as int, Visit::InProgress)),
            (visits@, dep_errors_view(errors@).subrange(e0 as int, errors@.len() as int)) == dfs_deps(
                *stage,
                v0.update(idx as int, Visit::InProgress),
                p0.push(idx),
                idx as int,
                d as int,
            ),
        decreases job.needs@.len() - d,
    {
        let ghost ve = errors@;
        let ghost vv = visits@;
        visit_dep(idx, d, stage, visits, path, errors);
        proof {
            let a = dep_errors_view(ve);
            let b = dep_errors_view(errors@);
            assert(b.subrange(0, ve.len() as int) == a);
            assert(b.subrange(e0 as int, errors@.len() as int) =~= a.subrange(e0 as int, ve.len() as int) + b.subrange(
                ve.len() as int,
                errors@.len() as int,
            ));
            lemma_subrange_chain(dep_errors_view(ve), dep_errors_view(errors@), e0 as int, ve.len() as int, *stage);
            assert(dep_errors_view(errors@).subrange(0, e0 as int) =~= dep_errors_view(ve).subrange(0, e0 as int));
            if errors@.len() == e0 {
                assert forall|d2: int| 0 <= d2 < d + 1 && dep_target(*stage, *job, #[trigger] job.needs@[d2]) >= 0
                    implies visits@[dep_target(*stage, *job, job.needs@[d2])] == Visit::Done by {
                    if d2 < d {
                        assert(vv[dep_target(*stage, *job, job.needs@[d2])] == Visit::Done);
                    }
                }
            }
        }
        d = d + 1;
    }
    let ghost v1 = visits@;
    path.pop();
    visits.set(idx, Visit::Done);
    proof {
        if errors@.len() == e0 && dfs_closed(*stage, v0) {
            assert forall|v: int| 0 <= v && #[trigger] same_stage_edge(*stage, idx as int, v) implies v < v1.len() && v1[v] == Visit::Done by {
                let d2 = choose|d2: int| 0 <= d2 < job.needs@.len() && #[trigger] dep_target(*stage, stage.jobs@[idx as int], stage.jobs@[idx as int].needs@[d2]) == v;
                assert(dep_target(*stage, *job, job.needs@[d2]) == v);
            }
            lemma_finish(*stage, v1, idx as int);
            assert(visits@ =~= v1.update(idx as int, Visit::Done));
        }
    }
    proof {
        assert(path@ =~= p0);
        lemma_unvisited_update(v1, idx as int, Visit::Done);
        assert forall|i: int| 0 <= i < visits@.len() implies (#[trigger] visits@[i] == Visit::InProgress <==> path@.contains(i as usize)) by {
            if i != idx {
                assert(v1[i] == visits@[i]);
                assert(v1[i] == Visit::InProgress <==> p0.push(idx).contains(i as usize));
                if p0.push(idx).contains(i as usize) {
                    let k = choose|k: int| 0 <= k < p0.len() + 1 && p0.push(idx)[k] == i as usize;
                    assert(k < p0.len());
                    assert(p0[k] == i as usize);
                }
                if p0.contains(i as usize) {
                    let k = choose|k: int| 0 <= k < p0.len() && p0[k] == i as usize;
                    assert(p0.push(idx)[k] == i as usize);
                }
            }
        }
    }
}

/// Follow dependency `d` of job `idx`, which is on top of the search path.
fn visit_dep(idx: usize, d: usize, stage: &Stage, visits: &mut Vec<Visit>, path: &mut Vec<usize>, errors: &mut Vec<DependencyError>)
    requires
        idx < stage.jobs@.len(),
        d < stage.jobs@[idx as int].needs@.len(),
        dfs_ok(*stage, old(visits)@, old(path)@),
        old(path)@.len() > 0,
        old(path)@.last() == idx,
        old(visits)@[idx as int] == Visit::InProgress,
    ensures
        dfs_ok(*stage, final(visits)@, final(path)@),
        final(path)@ == old(path)@,
        final(visits)@.len() == old(visits)@.len(),
        unvisited_count(final(visits)@) <= unvisited_count(old(visits)@),
        forall|i: int| 0 <= i < old(visits)@.len() ==> (#[trigger] final(visits)@[i] == Visit::InProgress <==> old(visits)@[i] == Visit::InProgress),
        dep_errors_view(final(errors)@).len() >= dep_errors_view(old(errors)@).len(),
        dep_errors_view(final(errors)@).subrange(0, old(errors)@.len() as int) == dep_errors_view(old(errors)@),
        all_cycle_reports(*stage, dep_errors_view(final(errors)@).subrange(old(errors)@.len() as int, final(errors)@.len() as int)),
        done_kept(old(visits)@, final(visits)@),
        final(errors)@.len() == old(errors)@.len() && dfs_closed(*stage, old(visits)@) ==> dfs_closed(*stage, final(visits)@),
        final(errors)@.len() == old(errors)@.len() && dep_target(*stage, stage.jobs@[idx as int], stage.jobs@[idx as int].needs@[d as int]) >= 0
            ==> final(visits)@[dep_target(*stage, stage.jobs@[idx as int], stage.jobs@[idx as int].needs@[d as int])] == Visit::Done,
        (final(visits)@, dep_errors_view(final(errors)@).subrange(old(errors)@.len() as int, final(errors)@.len() as int))
            == dfs_dep(*stage, old(visits)@, old(path)@, idx as int, d as int),
    decreases unvisited_count(old(visits)@), 1nat,
{
    let job = &stage.jobs[idx];
    let dep = &job.needs[d];
    let ghost e0 = errors@;
    proof {
        assert(dep_errors_view(e0).subrange(e0.len() as int, e0.len() as int) =~= Seq::<DepErrorView>::empty());
    }
    if str_eq(dep.stage.as_str(), stage.name.as_str()) && !str_eq(dep.job.as_str(), job.name.as_str()) {
        match find_job(&stage.jobs, dep.job.as_str()) {
            None => {
                assert(dep_target(*stage, *job, job.needs@[d as int]) == -1);
            },
            Some(dep_idx) => {
                proof {
                    assert(dep_target(*stage, *job, job.needs@[d as int]) == dep_idx);
                    assert(same_stage_edge(*stage, idx as int, dep_idx as int));
                }
                if visits[dep_idx] == Visit::Unvisited {
                    visit(dep_idx, stage, visits, path, errors);
                } else if visits[dep_idx] == Visit::InProgress {
                    report_cycle(stage, path, dep_idx, errors);
                    proof {
                        assert(dep_errors_view(errors@).subrange(e0.len() as int, errors@.len() as int) =~= seq![dep_errors_view(errors@).last()]);
                    }
                }
            },
        }
    }
    proof {
        assert(dep_errors_view(errors@).subrange(0, e0.len() as int) =~= dep_errors_view(e0));
    }
}

proof fn lemma_subrange_chain(
    a: Seq<(Seq<char>, Seq<char>, Seq<char>)>,
    b: Seq<(Seq<char>, Seq<char>, Seq<char>)>,
    e0: int,
    mid: int,
    stage: Stage,
)
    requires
        0 <= e0 <= mid <= a.len(),
        mid == a.len(),
        mid <= b.len(),
        b.subrange(0, mid) == a,
        all_cycle_reports(stage, a.subrange(e0, mid)),
        all_cycle_reports(stage, b.subrange(mid, b.len() as int)),
    ensures
        b.subrange(0, e0) == a.subrange(0, e0),
        all_cycle_reports(stage, b.subrange(e0, b.len() as int)),
{
    assert(b.subrange(0, e0) =~= a.subrange(0, e0));
    assert forall|i: int| 0 <= i < b.len() - e0 implies is_cycle_report(stage, #[trigger] b.subrange(e0, b.len() as int)[i]) by {
        if e0 + i < mid {
            assert(b.subrange(e0, b.len() as int)[i] == a.subrange(e0, mid)[i]);
        } else {
            assert(b.subrange(e0, b.len() as int)[i] == b.subrange(mid, b.len() as int)[e0 + i - mid]);
        }
    }
}

/// The names of the jobs along `walk`.
pub open spec fn walk_names(stage: Stage, walk: Seq<int>) -> Seq<Seq<char>> {
    walk.map_values(|k: int| stage.jobs@[k].name@)
}

/// Report the cycle closed by a dependency on `dep_idx`, which is on `path`.
fn report_cycle(stage: &Stage, path: &Vec<usize>, dep_idx: usize, errors: &mut Vec<DependencyError>)
    requires
        path@.len() > 0,
        forall|k: int| 0 <= k < path@.len() ==> #[trigger] path@[k] < stage.jobs@.len(),
        forall|k: int| 0 <= k < path@.len() - 1 ==> same_stage_edge(*stage, #[trigger] path@[k] as int, path@[k + 1] as int),
        path@.contains(dep_idx),
        same_stage_edge(*stage, path@.last() as int, dep_idx as int),
    ensures
        final(errors)@.len() == old(errors)@.len() + 1,
        dep_errors_view(final(errors)@).subrange(0, old(errors)@.len() as int) == dep_errors_view(old(errors)@),
        is_cycle_report(*stage, dep_errors_view(final(errors)@).last()),
        dep_errors_view(final(errors)@).last() == cycle_report_at(*stage, path@, dep_idx),
{
    let mut start: usize = 0;
    while start < path.len() && path[start] != dep_idx
        invariant
            0 <= start <= path@.len(),
            forall|k: int| 0 <= k < start ==> path@[k] != dep_idx,
            path@.contains(dep_idx),
        decreases path@.len() - start,
    {
        start = start + 1;
    }
    if start == path.len() {
        proof {
            let k = choose|k: int| 0 <= k < path@.len() && path@[k] == dep_idx;
            assert(false);
        }
    }
    let ghost walk = path@.subrange(start as int, path@.len() as int).map_values(|x: usize| x as int).push(dep_idx as int);
    let mut m = String::new();
    m.append("dependency cycle in stage `");
    m.append(stage.name.as_str());
    m.append("`: ");
    let ghost head = m@;
    let mut k: usize = start;
    while k < path.len()
        invariant
            start <= k <= path@.len(),
            start < path@.len(),
            forall|x: int| 0 <= x < path@.len() ==> #[trigger] path@[x] < stage.jobs@.len(),
            m@ == head + join_arrow(walk_names(*stage, walk.take(k - start))),
            walk == path@.subrange(start as int, path@.len() as int).map_values(|x: usize| x as int).push(dep_idx as int),
            dep_idx < stage.jobs@.len(),
        decreases path@.len() - k,
    {
        if k > start {
            m.append(" -> ");
        }
        m.append(stage.jobs[path[k]].name.as_str());
        proof {
            reveal_strlit(" -> ");
            let t = walk.take(k + 1 - start);
            assert(walk[k - start] == path@[k as int] as int);
            assert(walk_names(*stage, t).drop_last() =~= walk_names(*stage, walk.take(k - start)));
            assert(walk_names(*stage, t).last() == stage.jobs@[path@[k as int] as int].name@);
            assert(m@ =~= head + join_arrow(walk_names(*stage, t)));
        }
        k = k + 1;
    }
    m.append(" -> ");
    m.append(stage.jobs[dep_idx].name.as_str());
    proof {
        reveal_strlit(" -> ");
        reveal_strlit("dependency cycle in stage `");
        reveal_strlit("`: ");
        assert(walk.take(walk.len() - 1) =~= walk.drop_last());
        assert(walk_names(*stage, walk).drop_last() =~= walk_names(*stage, walk.drop_last()));
        assert(m@ =~= head + join_arrow(walk_names(*stage, walk)));
    }
    let ghost old_errors = errors@;
    errors.push(DependencyError { stage: stage.name.clone(), job: stage.jobs[dep_idx].name.clone(), message: m });
    proof {
        let e = dep_errors_view(errors@).last();
        assert(walk[0] == dep_idx as int);
        assert forall|x: int| 0 <= x < walk.len() - 1 implies same_stage_edge(*stage, #[trigger] walk[x], walk[x + 1]) by {
            if x < walk.len() - 2 {
                assert(walk[x] == path@[start + x] as int);
                assert(walk[x + 1] == path@[start + x + 1] as int);
            } else {
                assert(walk[x] == path@.last() as int);
            }
        }
        assert forall|x: int| 0 <= x < walk.len() implies 0 <= #[trigger] walk[x] < stage.jobs@.len() by {
            if x < walk.len() - 1 {
                assert(walk[x] == path@[start + x] as int);
            }
        }
        assert(walk.len() >= 2);
        assert(walk[0] == walk.last());
        assert(e.0 == stage.name@);
        assert(e.1 == stage.jobs@[walk.last()].name@);
        assert(e.2 == m@);
        assert(head =~= seq!['d','e','p','e','n','d','e','n','c','y',' ','c','y','c','l','e',' ','i','n',' ','s','t','a','g','e',' ','`']
            + stage.name@ + seq!['`', ':', ' ']);
        assert(cycle_walk(*stage, walk, e));
        assert(dep_errors_view(errors@).subrange(0, old_errors.len() as int) =~= dep_errors_view(old_errors));
        lemma_path_pos(path@, dep_idx, start as int, 0);
    }
}


} // verus!

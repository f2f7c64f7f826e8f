use vstd::prelude::*;

use crate::forge_arg::ForgeArg;
use crate::tool::ToolRequest;
use crate::toolset::{contains_str, strs};

verus! {

/// Whether some request of the batch is for the tool with id `id`.
pub open spec fn in_batch(reqs: Seq<ToolRequest>, id: Seq<char>) -> bool {
    exists|j: int| 0 <= j < reqs.len() && reqs[j].forge.id@ == id
}

/// A request none of whose dependencies is a tool of the batch.
pub open spec fn is_leaf(reqs: Seq<ToolRequest>, r: ToolRequest) -> bool {
    forall|d: int| 0 <= d < r.dependencies@.len() ==> !in_batch(reqs, r.dependencies@[d].id@)
}

/// Strictly increasing indices below `n`.
pub open spec fn ascending_below(v: Seq<usize>, n: nat) -> bool {
    &&& forall|k: int| 0 <= k < v.len() ==> v[k] < n
    &&& forall|k: int, l: int| 0 <= k < l < v.len() ==> v[k] < v[l]
}

/// Options of one install run.
#[derive(Debug)]
pub struct InstallOptions {
    pub force: bool,
    pub jobs: Option<usize>,
    pub raw: bool,
    pub latest_versions: bool,
}

impl InstallOptions {
    /// Options that take their parallelism and raw mode from the settings.
    pub fn new(settings_jobs: usize, settings_raw: bool) -> (r: Self)
        ensures
            r.jobs == Some(settings_jobs),
            r.raw == settings_raw,
            !r.force,
            !r.latest_versions,
    {
        InstallOptions { force: false, jobs: Some(settings_jobs), raw: settings_raw, latest_versions: false }
    }
}

/// How many workers an install run uses: one in raw mode, else the option's
/// count, else the settings' count.
pub fn job_count(opts: &InstallOptions, settings_jobs: usize, settings_raw: bool) -> (r: usize)
    ensures
        r == if opts.raw || settings_raw {
            1
        } else {
            match opts.jobs {
                Some(j) => j,
                None => settings_jobs,
            }
        },
{
    if opts.raw || settings_raw {
        1
    } else {
        match opts.jobs {
            Some(j) => j,
            None => settings_jobs,
        }
    }
}

/// Whether the tool with id `id` has a request in the batch.
fn batch_has(reqs: &Vec<ToolRequest>, id: &String) -> (r: bool)
    ensures
        r == in_batch(reqs@, id@),
{
    let mut j: usize = 0;
    while j < reqs.len()
        invariant
            j <= reqs@.len(),
            forall|k: int| 0 <= k < j ==> reqs@[k].forge.id@ != id@,
        decreases reqs@.len() - j,
    {
        if reqs[j].forge.id == *id {
            return true;
        }
        j = j + 1;
    }
    false
}

/// The positions, in order, of the requests of the batch that depend on no
/// tool of the batch: these are installed before the rest.
pub fn get_leaf_dependencies(requests: &Vec<ToolRequest>) -> (r: Vec<usize>)
    ensures
        ascending_below(r@, requests@.len()),
        forall|k: int| 0 <= k < r@.len() ==> is_leaf(requests@, #[trigger] requests@[r@[k] as int]),
        forall|i: int|
            0 <= i < requests@.len() && is_leaf(requests@, requests@[i]) ==> r@.contains(i as usize),
{
    let mut leaves: Vec<usize> = Vec::new();
    let mut i: usize = 0;
    while i < requests.len()
        invariant
            i <= requests@.len(),
            forall|k: int| 0 <= k < leaves@.len() ==> leaves@[k] < i,
            ascending_below(leaves@, requests@.len()),
            forall|k: int| 0 <= k < leaves@.len() ==> is_leaf(requests@, #[trigger] requests@[leaves@[k] as int]),
            forall|m: int| 0 <= m < i && is_leaf(requests@, requests@[m]) ==> leaves@.contains(m as usize),
        decreases requests@.len() - i,
    {
        let deps = requests[i].dependencies();
        let mut leaf = true;
        let mut d: usize = 0;
        while d < deps.len()
            invariant
                *deps == requests@[i as int].dependencies,
                i < requests@.len(),
                d <= deps@.len(),
                leaf == forall|e: int| 0 <= e < d ==> !in_batch(requests@, deps@[e].id@),
            decreases deps@.len() - d,
        {
            if batch_has(requests, &deps[d].id) {
                leaf = false;
            }
            d = d + 1;
        }
        let ghost before = leaves@;
        if leaf {
            leaves.push(i);
            proof {
                assert(leaves@[before.len() as int] == i);
            }
        }
        proof {
            assert forall|m: int| 0 <= m < i + 1 && is_leaf(requests@, requests@[m]) implies leaves@.contains(m as usize) by {
                if m < i {
                    let k = choose|k: int| 0 <= k < before.len() && before[k] == m as usize;
                    assert(leaves@[k] == before[k]);
                } else {
                    assert(leaves@[leaves@.len() - 1] == i);
                }
            }
        }
        i = i + 1;
    }
    leaves
}

/// The requests of one tool in a batch, by position, in the order declared.
#[derive(Debug)]
pub struct Job {
    pub forge: ForgeArg,
    pub requests: Vec<usize>,
}

/// No two jobs are for the same tool.
pub open spec fn distinct_jobs(q: Seq<Job>) -> bool {
    forall|a: int, b: int| 0 <= a < q.len() && 0 <= b < q.len() && a != b ==> q[a].forge.id@ != q[b].forge.id@
}

/// Job `j` holds some requests of the batch, at increasing positions below
/// `n`, all of its own tool.
pub open spec fn job_of_batch(reqs: Seq<ToolRequest>, j: Job, n: nat) -> bool {
    &&& j.requests@.len() > 0
    &&& ascending_below(j.requests@, n)
    &&& n <= reqs.len()
    &&& j.forge == reqs[j.requests@[0] as int].forge
    &&& forall|k: int| 0 <= k < j.requests@.len() ==> reqs[#[trigger] j.requests@[k] as int].forge.id@ == j.forge.id@
}

/// Request `i` of the batch is in the job of its tool.
pub open spec fn placed(reqs: Seq<ToolRequest>, q: Seq<Job>, i: int) -> bool {
    exists|a: int| 0 <= a < q.len() && q[a].forge.id@ == reqs[i].forge.id@ && #[trigger] q[a].requests@.contains(i as usize)
}

/// The queue of a batch of its first `n` requests: one job per tool, every
/// request in the job of its tool, and the jobs ordered by their tools' first
/// requests.
pub open spec fn queue_of(reqs: Seq<ToolRequest>, q: Seq<Job>, n: nat) -> bool {
    &&& distinct_jobs(q)
    &&& forall|a: int| 0 <= a < q.len() ==> job_of_batch(reqs, #[trigger] q[a], n)
    &&& forall|i: int| 0 <= i < n ==> #[trigger] placed(reqs, q, i)
    &&& forall|a: int, b: int| 0 <= a < b < q.len() ==> q[a].requests@[0] < q[b].requests@[0]
}

fn job_position(q: &Vec<Job>, id: &String) -> (r: Option<usize>)
    ensures
        match r {
            Some(a) => a < q@.len() && q@[a as int].forge.id@ == id@,
            None => forall|a: int| 0 <= a < q@.len() ==> q@[a].forge.id@ != id@,
        },
{
    let mut a: usize = 0;
    while a < q.len()
        invariant
            a <= q@.len(),
            forall|b: int| 0 <= b < a ==> q@[b].forge.id@ != id@,
        decreases q@.len() - a,
    {
        if q[a].forge.id == *id {
            return Some(a);
        }
        a = a + 1;
    }
    None
}

/// Groups a batch into one job per tool, in the order in which the tools are
/// first declared; within a job the requests keep their declared order.
pub fn plan_queue(requests: &Vec<ToolRequest>) -> (r: Vec<Job>)
    ensures
        queue_of(requests@, r@, requests@.len()),
{
    let mut q: Vec<Job> = Vec::new();
    let mut i: usize = 0;
    while i < requests.len()
        invariant
            i <= requests@.len(),
            queue_of(requests@, q@, i as nat),
        decreases requests@.len() - i,
    {
        let ghost before = q@;
        let id = &requests[i].forge.id;
        match job_position(&q, id) {
            Some(a) => {
                let mut job = q.remove(a);
                let ghost old_job = job;
                job.requests.push(i);
                q.insert(a, job);
                proof {
                    assert(q@ =~= before.update(a as int, job));
                    assert(job.requests@[0] == old_job.requests@[0]);
                    assert forall|k: int| 0 <= k < job.requests@.len() implies requests@[#[trigger] job.requests@[k] as int].forge.id@ == job.forge.id@ by {
                        if k < old_job.requests@.len() {
                            assert(job.requests@[k] == old_job.requests@[k]);
                        }
                    }
                    assert(job_of_batch(requests@, job, (i + 1) as nat));
                    assert forall|m: int| 0 <= m < i + 1 implies placed(requests@, q@, m) by {
                        if m < i {
                            assert(placed(requests@, before, m));
                            let b = choose|b: int| 0 <= b < before.len() && before[b].forge.id@ == requests@[m].forge.id@ && before[b].requests@.contains(m as usize);
                            if b == a {
                                let k = choose|k: int| 0 <= k < old_job.requests@.len() && old_job.requests@[k] == m as usize;
                                assert(job.requests@[k] == m as usize);
                                assert(q@[b].requests@.contains(m as usize));
                            } else {
                                assert(q@[b] == before[b]);
                            }
                        } else {
                            assert(job.requests@[job.requests@.len() - 1] == i);
                            assert(q@[a as int].requests@.contains(m as usize));
                        }
                    }
                }
            },
            None => {
                let mut idxs: Vec<usize> = Vec::new();
                idxs.push(i);
                let job = Job { forge: requests[i].forge.duplicate(), requests: idxs };
                q.push(job);
                proof {
                    assert(job.requests@[0] == i);
                    assert(job_of_batch(requests@, job, (i + 1) as nat));
                    assert forall|b: int| 0 <= b < q@.len() implies job_of_batch(requests@, #[trigger] q@[b], (i + 1) as nat) by {
                        if b < before.len() {
                            assert(q@[b] == before[b]);
                            assert(job_of_batch(requests@, before[b], i as nat));
                        }
                    }
                    assert forall|m: int| 0 <= m < i + 1 implies placed(requests@, q@, m) by {
                        if m < i {
                            assert(placed(requests@, before, m));
                            let b = choose|b: int| 0 <= b < before.len() && before[b].forge.id@ == requests@[m].forge.id@ && before[b].requests@.contains(m as usize);
                            assert(q@[b] == before[b]);
                        } else {
                            let b = before.len() as int;
                            assert(q@[b] == job);
                            assert(job.requests@[0] == m as usize);
                            assert(q@[b].requests@.contains(m as usize));
                        }
                    }
                    assert forall|a: int, b: int| 0 <= a < b < q@.len() implies q@[a].requests@[0] < q@[b].requests@[0] by {
                        if b == before.len() {
                            assert(job_of_batch(requests@, before[a], i as nat));
                        }
                    }
                }
            },
        }
        i = i + 1;
    }
    q
}

/// The state of an install run: the jobs not yet taken, and the tools whose
/// jobs are being installed.
#[derive(Debug)]
pub struct Scheduler {
    pub queue: Vec<Job>,
    pub installing: Vec<String>,
}

impl Scheduler {
    /// Whether the tool with id `id` is being installed.
    pub open spec fn in_flight(&self, id: Seq<char>) -> bool {
        strs(self.installing@).contains(id)
    }

    /// One job per tool, each tool at most once in flight, and no tool both
    /// queued and in flight.
    pub open spec fn wf(&self) -> bool {
        &&& distinct_jobs(self.queue@)
        &&& strs(self.installing@).no_duplicates()
        &&& forall|a: int| 0 <= a < self.queue@.len() ==> !self.in_flight(#[trigger] self.queue@[a].forge.id@)
    }

    pub fn new(queue: Vec<Job>) -> (r: Self)
        requires
            distinct_jobs(queue@),
        ensures
            r.wf(),
            r.queue == queue,
            r.installing@.len() == 0,
    {
        let r = Scheduler { queue, installing: Vec::new() };
        assert(strs(r.installing@) =~= Seq::<Seq<char>>::empty());
        r
    }

    /// Takes the next job and marks its tool as in flight. The tool handed out
    /// was not in flight before.
    pub fn next_job(&mut self) -> (r: Option<Job>)
        requires
            old(self).wf(),
        ensures
            final(self).wf(),
            match r {
                None => old(self).queue@.len() == 0 && *final(self) == *old(self),
                Some(j) => {
                    &&& old(self).queue@.len() > 0
                    &&& j == old(self).queue@[0]
                    &&& !old(self).in_flight(j.forge.id@)
                    &&& final(self).queue@ == old(self).queue@.subrange(1, old(self).queue@.len() as int)
                    &&& strs(final(self).installing@) == strs(old(self).installing@).push(j.forge.id@)
                },
            },
    {
        if self.queue.len() == 0 {
            return None;
        }
        let ghost q0 = self.queue@;
        let ghost inst0 = self.installing@;
        let job = self.queue.remove(0);
        self.installing.push(job.forge.id.clone());
        proof {
            assert(!strs(inst0).contains(job.forge.id@)) by {
                assert(q0[0] == job);
            }
            assert(strs(self.installing@) =~= strs(inst0).push(job.forge.id@));
            assert forall|a: int| 0 <= a < self.queue@.len() implies !self.in_flight(#[trigger] self.queue@[a].forge.id@) by {
                assert(self.queue@[a] == q0[a + 1]);
                assert(q0[a + 1].forge.id@ != q0[0].forge.id@);
                assert(!strs(inst0).contains(q0[a + 1].forge.id@));
                if strs(self.installing@).contains(q0[a + 1].forge.id@) {
                    let k = choose|k: int| 0 <= k < strs(self.installing@).len() && strs(self.installing@)[k] == q0[a + 1].forge.id@;
                    if k < inst0.len() {
                        assert(strs(inst0)[k] == strs(self.installing@)[k]);
                    }
                }
            }
            assert forall|a: int, b: int| 0 <= a < self.queue@.len() && 0 <= b < self.queue@.len() && a != b implies self.queue@[a].forge.id@ != self.queue@[b].forge.id@ by {
                assert(self.queue@[a] == q0[a + 1]);
                assert(self.queue@[b] == q0[b + 1]);
            }
            assert forall|x: int, y: int| 0 <= x < strs(self.installing@).len() && 0 <= y < strs(self.installing@).len() && x != y implies strs(self.installing@)[x] != strs(self.installing@)[y] by {
                if x < inst0.len() && y < inst0.len() {
                    assert(strs(inst0)[x] == strs(self.installing@)[x]);
                    assert(strs(inst0)[y] == strs(self.installing@)[y]);
                } else if x < inst0.len() {
                    assert(strs(inst0)[x] == strs(self.installing@)[x]);
                } else if y < inst0.len() {
                    assert(strs(inst0)[y] == strs(self.installing@)[y]);
                }
            }
        }
        Some(job)
    }

    /// Whether a version with these runtime dependencies may start: none of
    /// them is in flight.
    pub fn can_start(&self, deps: &Vec<ForgeArg>) -> (r: bool)
        ensures
            r == forall|d: int| 0 <= d < deps@.len() ==> !self.in_flight(#[trigger] deps@[d].id@),
    {
        let mut d: usize = 0;
        while d < deps.len()
            invariant
                d <= deps@.len(),
                forall|e: int| 0 <= e < d ==> !self.in_flight(#[trigger] deps@[e].id@),
            decreases deps@.len() - d,
        {
            if contains_str(&self.installing, &deps[d].id) {
                return false;
            }
            d = d + 1;
        }
        true
    }

    /// Marks the tool with id `id` as no longer in flight.
    pub fn finish(&mut self, id: &String)
        requires
            old(self).wf(),
        ensures
            final(self).wf(),
            final(self).queue == old(self).queue,
            forall|s: Seq<char>| final(self).in_flight(s) <==> (old(self).in_flight(s) && s != id@),
    {
        let ghost inst0 = self.installing@;
        let mut k: usize = 0;
        while k < self.installing.len()
            invariant
                self.installing@ == inst0,
                self.queue == old(self).queue,
                old(self).installing@ == inst0,
                old(self).wf(),
                k <= inst0.len(),
                forall|e: int| 0 <= e < k ==> inst0[e]@ != id@,
            decreases inst0.len() - k,
        {
            if self.installing[k] == *id {
                self.installing.remove(k);
                proof {
                    let s0 = strs(inst0);
                    let s1 = strs(self.installing@);
                    assert(s1 =~= s0.remove(k as int));
                    assert(s0[k as int] == id@);
                    assert forall|s: Seq<char>| s1.contains(s) <==> (s0.contains(s) && s != id@) by {
                        if s1.contains(s) {
                            let x = choose|x: int| 0 <= x < s1.len() && s1[x] == s;
                            if x < k {
                                assert(s0[x] == s);
                            } else {
                                assert(s0[x + 1] == s);
                                assert(x + 1 != k);
                            }
                        }
                        if s0.contains(s) && s != id@ {
                            let x = choose|x: int| 0 <= x < s0.len() && s0[x] == s;
                            if x < k {
                                assert(s1[x] == s);
                            } else {
                                assert(x != k);
                                assert(s1[x - 1] == s);
                            }
                        }
                    }
                    assert forall|x: int, y: int| 0 <= x < s1.len() && 0 <= y < s1.len() && x != y implies s1[x] != s1[y] by {
                        let x0 = if x < k { x } else { x + 1 };
                        let y0 = if y < k { y } else { y + 1 };
                        assert(s1[x] == s0[x0]);
                        assert(s1[y] == s0[y0]);
                    }
                }
                return;
            }
            k = k + 1;
        }
        proof {
            assert forall|s: Seq<char>| self.in_flight(s) implies s != id@ by {
                let x = choose|x: int| 0 <= x < strs(inst0).len() && strs(inst0)[x] == s;
                assert(inst0[x]@ == s);
            }
        }
    }
}

/// An install run never has the same tool in flight twice: whatever jobs
/// are taken and finished, every state keeps each tool at most once among
/// those being installed.
pub proof fn lemma_one_in_flight_per_tool(s: Scheduler)
    requires
        s.wf(),
    ensures
        forall|x: int, y: int|
            0 <= x < s.installing@.len() && 0 <= y < s.installing@.len() && x != y
                ==> s.installing@[x]@ != s.installing@[y]@,
{
    assert forall|x: int, y: int|
        0 <= x < s.installing@.len() && 0 <= y < s.installing@.len() && x != y implies s.installing@[x]@ != s.installing@[y]@ by {
        assert(strs(s.installing@)[x] == s.installing@[x]@);
        assert(strs(s.installing@)[y] == s.installing@[y]@);
    }
}

} // verus!

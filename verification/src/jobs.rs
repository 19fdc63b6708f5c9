//! The job table: the process groups the shell started, their processes,
//! and which job holds the terminal.
use vstd::prelude::*;
use std::collections::BTreeMap;
use vstd::std_specs::cmp::OrdSpec;
use vstd::std_specs::iter::IteratorSpec;

verus! {

broadcast use {vstd::std_specs::btree::group_btree_axioms, vstd::laws_cmp::group_laws_cmp};

pub type JobId = u32;

/// Whether a job holds the terminal.
#[derive(Debug, Clone, Copy, PartialEq, Eq, Structural)]
pub enum JobDisposition {
    Foreground,
    Background,
}

/// The last known state of one process.
#[derive(Debug, Clone, Copy, PartialEq, Eq, Structural)]
pub enum ProcessState {
    Running,
    Stopped,
    Completed(i32),
}

/// The state of a job, derived from its processes.
#[derive(Debug, Clone, Copy, PartialEq, Eq, Structural)]
pub enum JobState {
    Running,
    Stopped,
    Completed,
}

/// The value of a process record.
pub struct ProcV {
    pub pid: u32,
    pub state: ProcessState,
    pub summary: Seq<char>,
}

/// The value of a job record.
pub struct JobV {
    pub id: JobId,
    pub pgid: u32,
    pub summary: Seq<char>,
    pub disposition: JobDisposition,
    pub state: JobState,
    pub processes: Seq<ProcV>,
}

/// The value of the job table.
pub struct JobsV {
    /// The last id handed out (0 before the first).
    pub next_id: JobId,
    pub foreground: Option<JobId>,
    pub jobs: Map<JobId, JobV>,
}

#[derive(Debug, PartialEq, Eq)]
pub struct ProcessRecord {
    pid: u32,
    state: ProcessState,
    summary: String,
}

#[derive(Debug, PartialEq, Eq)]
pub struct JobRecord {
    id: JobId,
    pgid: u32,
    summary: String,
    disposition: JobDisposition,
    state: JobState,
    processes: Vec<ProcessRecord>,
}

#[derive(Debug)]
pub struct Jobs {
    next_job_id: JobId,
    foreground_job: Option<JobId>,
    jobs: BTreeMap<JobId, JobRecord>,
}

pub open spec fn procs_view(ps: Seq<ProcessRecord>) -> Seq<ProcV> {
    ps.map_values(|p: ProcessRecord| p.view())
}

impl ProcessRecord {
    pub closed spec fn view(&self) -> ProcV {
        ProcV { pid: self.pid, state: self.state, summary: self.summary@ }
    }

    /// A process that has just started.
    pub fn new(pid: u32, summary: &str) -> (r: Self)
        ensures
            r.view() == (ProcV { pid, state: ProcessState::Running, summary: summary@ }),
    {
        ProcessRecord { pid, state: ProcessState::Running, summary: summary.to_string() }
    }

    pub fn pid(&self) -> (r: u32)
        ensures
            r == self.view().pid,
    {
        self.pid
    }

    pub fn state(&self) -> (r: ProcessState)
        ensures
            r == self.view().state,
    {
        self.state
    }

    pub fn summary(&self) -> (r: &str)
        ensures
            r@ == self.view().summary,
    {
        self.summary.as_str()
    }
}

impl Clone for ProcessRecord {
    fn clone(&self) -> (r: Self)
        ensures
            r == *self,
    {
        ProcessRecord { pid: self.pid, state: self.state, summary: self.summary.clone() }
    }
}

impl JobRecord {
    pub closed spec fn view(&self) -> JobV {
        JobV {
            id: self.id,
            pgid: self.pgid,
            summary: self.summary@,
            disposition: self.disposition,
            state: self.state,
            processes: procs_view(self.processes@),
        }
    }

    pub fn id(&self) -> (r: JobId)
        ensures
            r == self.view().id,
    {
        self.id
    }

    pub fn pgid(&self) -> (r: u32)
        ensures
            r == self.view().pgid,
    {
        self.pgid
    }

    pub fn summary(&self) -> (r: &str)
        ensures
            r@ == self.view().summary,
    {
        self.summary.as_str()
    }

    pub fn disposition(&self) -> (r: JobDisposition)
        ensures
            r == self.view().disposition,
    {
        self.disposition
    }

    pub fn state(&self) -> (r: JobState)
        ensures
            r == self.view().state,
    {
        self.state
    }

    pub fn processes(&self) -> (r: &[ProcessRecord])
        ensures
            procs_view(r@) == self.view().processes,
    {
        self.processes.as_slice()
    }
}

impl Clone for JobRecord {
    fn clone(&self) -> (r: Self)
        ensures
            r.view() == self.view(),
    {
        let processes = self.processes.clone();
        assert forall|i: int| 0 <= i < processes@.len() implies processes@[i] == self.processes@[i] by {
            assert(cloned(self.processes@[i], processes@[i]));
        }
        assert(procs_view(processes@) =~= procs_view(self.processes@));
        JobRecord {
            id: self.id,
            pgid: self.pgid,
            summary: self.summary.clone(),
            disposition: self.disposition,
            state: self.state,
            processes,
        }
    }
}

/// A job is done when all its processes are (so a job with none is done);
/// otherwise it is stopped when one of them is, and running if not.
pub open spec fn job_state_of(ps: Seq<ProcV>) -> JobState {
    if forall|i: int| 0 <= i < ps.len() ==> (#[trigger] ps[i]).state is Completed {
        JobState::Completed
    } else if exists|i: int| 0 <= i < ps.len() && (#[trigger] ps[i]).state is Stopped {
        JobState::Stopped
    } else {
        JobState::Running
    }
}

/// The id after `last`: one more, held at `u32::MAX` once it gets there.
pub open spec fn next_job_id(last: JobId) -> JobId {
    if last == u32::MAX {
        u32::MAX
    } else {
        (last + 1) as u32
    }
}

/// The first position at or after `i` of the process with id `pid`.
pub open spec fn pid_position(ps: Seq<ProcV>, pid: u32, i: int) -> Option<int>
    decreases ps.len() - i,
{
    if i < 0 || i >= ps.len() {
        None
    } else if ps[i].pid == pid {
        Some(i)
    } else {
        pid_position(ps, pid, i + 1)
    }
}

/// The table after a job is added with the next id; a foreground job
/// takes the terminal.
pub open spec fn spec_insert(
    t: JobsV,
    pgid: u32,
    summary: Seq<char>,
    disposition: JobDisposition,
    processes: Seq<ProcV>,
) -> JobsV {
    let id = next_job_id(t.next_id);
    JobsV {
        next_id: id,
        foreground: if disposition == JobDisposition::Foreground {
            Some(id)
        } else {
            t.foreground
        },
        jobs: t.jobs.insert(
            id,
            JobV { id, pgid, summary, disposition, state: job_state_of(processes), processes },
        ),
    }
}

/// The table after a process joins job `id`, and whether the job exists.
pub open spec fn spec_add_process(t: JobsV, id: JobId, p: ProcV) -> (JobsV, bool) {
    if !t.jobs.contains_key(id) {
        (t, false)
    } else {
        let j = t.jobs[id];
        let ps = j.processes.push(p);
        (JobsV { jobs: t.jobs.insert(id, JobV { processes: ps, state: job_state_of(ps), ..j }), ..t }, true)
    }
}

/// The table after process `pid` of job `id` is seen in state `s`, and
/// whether both were found. A foreground job that completes gives up the
/// terminal.
pub open spec fn spec_update_process_state(t: JobsV, id: JobId, pid: u32, s: ProcessState) -> (
    JobsV,
    bool,
) {
    if !t.jobs.contains_key(id) {
        (t, false)
    } else {
        let j = t.jobs[id];
        match pid_position(j.processes, pid, 0) {
            None => (t, false),
            Some(k) => {
                let ps = j.processes.update(k, ProcV { state: s, ..j.processes[k] });
                let st = job_state_of(ps);
                (
                    JobsV {
                        foreground: if st == JobState::Completed && t.foreground == Some(id) {
                            None
                        } else {
                            t.foreground
                        },
                        jobs: t.jobs.insert(id, JobV { processes: ps, state: st, ..j }),
                        ..t
                    },
                    true,
                )
            },
        }
    }
}

/// The table after job `id` is moved to the foreground or background, and
/// whether it exists.
pub open spec fn spec_set_disposition(t: JobsV, id: JobId, d: JobDisposition) -> (JobsV, bool) {
    if !t.jobs.contains_key(id) {
        (t, false)
    } else {
        (
            JobsV {
                foreground: if d == JobDisposition::Foreground {
                    Some(id)
                } else if t.foreground == Some(id) {
                    None
                } else {
                    t.foreground
                },
                jobs: t.jobs.insert(id, JobV { disposition: d, ..t.jobs[id] }),
                ..t
            },
            true,
        )
    }
}

/// The table without job `id`, which no longer holds the terminal.
pub open spec fn spec_remove(t: JobsV, id: JobId) -> JobsV {
    JobsV {
        foreground: if t.foreground == Some(id) {
            None
        } else {
            t.foreground
        },
        jobs: t.jobs.remove(id),
        ..t
    }
}

/// Whether job `id` of `t` has a process with id `pid`.
pub open spec fn job_has_pid(t: JobsV, id: JobId, pid: u32) -> bool {
    t.jobs.contains_key(id) && pid_position(t.jobs[id].processes, pid, 0) is Some
}

/// The processes with every one that has not completed put in state `s`.
pub open spec fn unfinished_set_to(ps: Seq<ProcV>, s: ProcessState) -> Seq<ProcV> {
    Seq::new(
        ps.len(),
        |i: int|
            if ps[i].state is Completed {
                ps[i]
            } else {
                ProcV { state: s, ..ps[i] }
            },
    )
}

/// The table after every unfinished process of job `id` is put in state
/// `s`, and whether the job exists.
pub open spec fn spec_set_unfinished(t: JobsV, id: JobId, s: ProcessState) -> (JobsV, bool) {
    if !t.jobs.contains_key(id) {
        (t, false)
    } else {
        let j = t.jobs[id];
        let ps = unfinished_set_to(j.processes, s);
        let st = job_state_of(ps);
        (
            JobsV {
                foreground: if st == JobState::Completed && t.foreground == Some(id) {
                    None
                } else {
                    t.foreground
                },
                jobs: t.jobs.insert(id, JobV { processes: ps, state: st, ..j }),
                ..t
            },
            true,
        )
    }
}

/// Whether `ids` lists the keys of `m` in increasing order.
pub open spec fn ids_in_order(ids: Seq<JobId>, m: Map<JobId, JobV>) -> bool {
    &&& forall|i: int, j: int| 0 <= i < j < ids.len() ==> ids[i] < ids[j]
    &&& ids.to_set() == m.dom()
}

impl Jobs {
    pub closed spec fn view(&self) -> JobsV {
        JobsV {
            next_id: self.next_job_id,
            foreground: self.foreground_job,
            jobs: self.jobs@.map_values(|j: JobRecord| j.view()),
        }
    }

    /// The table's invariant: it holds finitely many jobs; each job is filed
    /// under its own id, which is at most the last one handed out; its state is the one its processes
    /// give; and the foreground job, if any, is in the table.
    pub open spec fn wf(&self) -> bool {
        well_formed(self.view())
    }

    /// An empty table.
    pub fn new() -> (r: Jobs)
        ensures
            r.wf(),
            r.view().next_id == 0,
            r.view().foreground is None,
            r.view().jobs == Map::<JobId, JobV>::empty(),
    {
        let r = Jobs { next_job_id: 0, foreground_job: None, jobs: BTreeMap::new() };
        assert(r.view().jobs =~= Map::<JobId, JobV>::empty());
        r
    }

    /// Adds a job under the next id and returns that id. A foreground job
    /// takes the terminal.
    pub fn insert(
        &mut self,
        pgid: u32,
        summary: &str,
        disposition: JobDisposition,
        processes: Vec<ProcessRecord>,
    ) -> (id: JobId)
        requires
            old(self).wf(),
        ensures
            final(self).wf(),
            id == next_job_id(old(self).view().next_id),
            final(self).view() == spec_insert(
                old(self).view(),
                pgid,
                summary@,
                disposition,
                procs_view(processes@),
            ),
    {
        let ghost pv = procs_view(processes@);
        let id = self.alloc_job_id();
        let state = derive_job_state(&processes);
        let record = JobRecord {
            id,
            pgid,
            summary: summary.to_string(),
            disposition,
            state,
            processes,
        };
        self.jobs.insert(id, record);
        if disposition == JobDisposition::Foreground {
            self.foreground_job = Some(id);
        }
        proof {
            let t = spec_insert(old(self).view(), pgid, summary@, disposition, pv);
            assert(self.view().jobs =~= t.jobs);
        }
        id
    }

    /// Adds a process to job `job_id`; false if there is no such job.
    pub fn add_process(&mut self, job_id: JobId, process: ProcessRecord) -> (found: bool)
        requires
            old(self).wf(),
        ensures
            final(self).wf(),
            (final(self).view(), found) == spec_add_process(old(self).view(), job_id, process.view()),
    {
        match self.jobs.remove(&job_id) {
            None => {
                assert(self.jobs@ =~= old(self).jobs@);
                false
            },
            Some(job) => {
                let mut job = job;
                let ghost j0 = job;
                job.processes.push(process);
                job.state = derive_job_state(&job.processes);
                assert(procs_view(job.processes@) =~= procs_view(j0.processes@).push(process.view()));
                self.jobs.insert(job_id, job);
                proof {
                    let t = spec_add_process(old(self).view(), job_id, process.view()).0;
                    assert(self.view().jobs =~= t.jobs);
                }
                true
            },
        }
    }

    /// Records that process `pid` of job `job_id` is now in `state`; false
    /// if there is no such job or process. A foreground job that completes
    /// gives up the terminal.
    pub fn update_process_state(&mut self, job_id: JobId, pid: u32, state: ProcessState) -> (found:
        bool)
        requires
            old(self).wf(),
        ensures
            final(self).wf(),
            (final(self).view(), found) == spec_update_process_state(
                old(self).view(),
                job_id,
                pid,
                state,
            ),
    {
        let job = match self.jobs.remove(&job_id) {
            None => {
                assert(self.jobs@ =~= old(self).jobs@);
                return false;
            },
            Some(job) => job,
        };
        let ghost ps = procs_view(job.processes@);
        let mut k: usize = 0;
        while k < job.processes.len() && job.processes[k].pid != pid
            invariant
                0 <= k <= job.processes@.len(),
                ps == procs_view(job.processes@),
                pid_position(ps, pid, k as int) == pid_position(ps, pid, 0),
            decreases job.processes@.len() - k,
        {
            k += 1;
        }
        if k == job.processes.len() {
            self.jobs.insert(job_id, job);
            proof {
                assert(self.jobs@ =~= old(self).jobs@);
            }
            return false;
        }
        let mut job = job;
        let ghost j0 = job;
        let updated = ProcessRecord {
            pid: job.processes[k].pid,
            state,
            summary: job.processes[k].summary.clone(),
        };
        job.processes.set(k, updated);
        job.state = derive_job_state(&job.processes);
        assert(procs_view(job.processes@) =~= ps.update(k as int, ProcV { state, ..ps[k as int] }));
        let done = job.state == JobState::Completed;
        self.jobs.insert(job_id, job);
        if done && self.foreground_job == Some(job_id) {
            self.foreground_job = None;
        }
        proof {
            let t = spec_update_process_state(old(self).view(), job_id, pid, state).0;
            assert(self.view().jobs =~= t.jobs);
        }
        true
    }

    /// Moves job `job_id` to the foreground or background; false if there
    /// is no such job.
    pub fn set_disposition(&mut self, job_id: JobId, disposition: JobDisposition) -> (found: bool)
        requires
            old(self).wf(),
        ensures
            final(self).wf(),
            (final(self).view(), found) == spec_set_disposition(
                old(self).view(),
                job_id,
                disposition,
            ),
    {
        match self.jobs.remove(&job_id) {
            None => {
                assert(self.jobs@ =~= old(self).jobs@);
                false
            },
            Some(job) => {
                let mut job = job;
                job.disposition = disposition;
                self.jobs.insert(job_id, job);
                if disposition == JobDisposition::Foreground {
                    self.foreground_job = Some(job_id);
                } else if self.foreground_job == Some(job_id) {
                    self.foreground_job = None;
                }
                proof {
                    let t = spec_set_disposition(old(self).view(), job_id, disposition).0;
                    assert(self.view().jobs =~= t.jobs);
                }
                true
            },
        }
    }

    /// Takes job `job_id` out of the table.
    pub fn remove(&mut self, job_id: JobId) -> (r: Option<JobRecord>)
        requires
            old(self).wf(),
        ensures
            final(self).wf(),
            final(self).view() == spec_remove(old(self).view(), job_id),
            match r {
                Some(j) => old(self).view().jobs.contains_key(job_id) && j.view() == old(
                    self,
                ).view().jobs[job_id],
                None => !old(self).view().jobs.contains_key(job_id),
            },
    {
        if self.foreground_job == Some(job_id) {
            self.foreground_job = None;
        }
        let r = self.jobs.remove(&job_id);
        proof {
            assert(self.view().jobs =~= old(self).view().jobs.remove(job_id));
        }
        r
    }

    /// The job filed under `job_id`.
    pub fn get(&self, job_id: JobId) -> (r: Option<&JobRecord>)
        ensures
            match r {
                Some(j) => self.view().jobs.contains_key(job_id) && j.view()
                    == self.view().jobs[job_id],
                None => !self.view().jobs.contains_key(job_id),
            },
    {
        self.jobs.get(&job_id)
    }

    /// The job that holds the terminal.
    pub fn foreground_job(&self) -> (r: Option<JobId>)
        ensures
            r == self.view().foreground,
    {
        self.foreground_job
    }

    /// The jobs in increasing order of id.
    pub fn iter(&self) -> (r: Vec<&JobRecord>)
        ensures
            exists|ids: Seq<JobId>|
                {
                    &&& ids_in_order(ids, self.view().jobs)
                    &&& r@.len() == ids.len()
                    &&& forall|i: int| 0 <= i < ids.len() ==> (#[trigger] r@[i]).view() == self.view().jobs[ids[i]]
                },
    {
        let mut out: Vec<&JobRecord> = Vec::new();
        let vals = self.jobs.values();
        let ghost ks = choose|ks: Seq<JobId>|
            {
                &&& vstd::std_specs::btree::increasing_seq(ks)
                &&& ks.to_set() == self.jobs@.dom()
                &&& ks.no_duplicates()
                &&& IteratorSpec::remaining(&vals) == ks.map(|i: int, k: JobId| &self.jobs@[k])
            };
        for j in it: vals
            invariant
                it.seq() == IteratorSpec::remaining(&vals),
                out@.len() == it.index(),
                forall|i: int| 0 <= i < it.index() ==> out@[i] == it.seq()[i],
        {
            out.push(j);
        }
        proof {
            assert(vstd::laws_cmp::obeys_cmp::<u32>());
            assert(vstd::std_specs::btree::increasing_seq(ks));
            assert forall|i: int, j: int| 0 <= i < j < ks.len() implies ks[i] < ks[j] by {
                assert(ks[i].cmp_spec(&ks[j]) is Less);
            }
            assert(ks.to_set() =~= self.view().jobs.dom());
            assert(ids_in_order(ks, self.view().jobs));
            assert forall|i: int| 0 <= i < ks.len() implies (#[trigger] out@[i]).view() == self.view().jobs[ks[i]] by {
                assert(ks.to_set().contains(ks[i]));
            }
        }
        out
    }

    /// The job, lowest id first, that has a process with id `pid`.
    #[verifier::loop_isolation(false)]
    pub fn job_id_for_pid(&self, pid: u32) -> (r: Option<JobId>)
        requires
            self.wf(),
        ensures
            match r {
                Some(id) => job_has_pid(self.view(), id, pid) && forall|k: JobId|
                    k < id ==> !#[trigger] job_has_pid(self.view(), k, pid),
                None => forall|k: JobId| !#[trigger] job_has_pid(self.view(), k, pid),
            },
    {
        let all = self.iter();
        let ghost t = self.view();
        let ghost ids = choose|ids: Seq<JobId>|
            {
                &&& ids_in_order(ids, t.jobs)
                &&& all@.len() == ids.len()
                &&& forall|i: int| 0 <= i < ids.len() ==> (#[trigger] all@[i]).view() == t.jobs[ids[i]]
            };
        let mut i: usize = 0;
        while i < all.len()
            invariant
                0 <= i <= all@.len(),
                all@.len() == ids.len(),
                ids_in_order(ids, t.jobs),
                t == self.view(),
                well_formed(t),
                forall|k: int| 0 <= k < ids.len() ==> (#[trigger] all@[k]).view() == t.jobs[ids[k]],
                forall|k: int| 0 <= k < i ==> !#[trigger] job_has_pid(t, ids[k], pid),
            decreases all@.len() - i,
        {
            let job = all[i];
            let ghost ps = job.view().processes;
            let procs = job.processes();
            let mut j: usize = 0;
            while j < procs.len()
                invariant
                    0 <= j <= procs@.len(),
                    procs_view(procs@) == ps,
                    pid_position(ps, pid, j as int) == pid_position(ps, pid, 0),
                decreases procs@.len() - j,
            {
                if procs[j].pid() == pid {
                    proof {
                        assert(ids.to_set().contains(ids[i as int]));
                        assert(t.jobs.contains_key(ids[i as int]));
                        assert forall|k: JobId| k < job.view().id implies !#[trigger] job_has_pid(t, k, pid) by {
                            if t.jobs.contains_key(k) {
                                assert(ids.to_set().contains(k));
                                let m = choose|m: int| 0 <= m < ids.len() && ids[m] == k;
                                if m >= i {
                                    if m > i {
                                        assert(ids[i as int] < ids[m]);
                                    }
                                }
                            }
                        }
                    }
                    return Some(job.id());
                }
                j += 1;
            }
            i += 1;
        }
        proof {
            assert forall|k: JobId| !#[trigger] job_has_pid(t, k, pid) by {
                if t.jobs.contains_key(k) {
                    assert(ids.to_set().contains(k));
                    let m = choose|m: int| 0 <= m < ids.len() && ids[m] == k;
                    assert(!job_has_pid(t, ids[m], pid));
                }
            }
        }
        None
    }

    /// Puts every unfinished process of job `job_id` in `state`; false if
    /// there is no such job.
    fn set_unfinished_processes(&mut self, job_id: JobId, state: ProcessState) -> (found: bool)
        requires
            old(self).wf(),
            !(state is Completed),
        ensures
            final(self).wf(),
            (final(self).view(), found) == spec_set_unfinished(old(self).view(), job_id, state),
    {
        match self.jobs.remove(&job_id) {
            None => {
                assert(self.jobs@ =~= old(self).jobs@);
                false
            },
            Some(job) => {
                let mut job = job;
                let ghost ps = procs_view(job.processes@);
                let ghost j0 = job;
                let mut k: usize = 0;
                while k < job.processes.len()
                    invariant
                        0 <= k <= job.processes@.len(),
                        job.id == j0.id,
                        job.pgid == j0.pgid,
                        job.summary == j0.summary,
                        job.disposition == j0.disposition,
                        ps.len() == job.processes@.len(),
                        forall|m: int| 0 <= m < k ==> (#[trigger] job.processes@[m]).view() == unfinished_set_to(ps, state)[m],
                        forall|m: int| k <= m < job.processes@.len() ==> (#[trigger] job.processes@[m]).view() == ps[m],
                    decreases job.processes@.len() - k,
                {
                    let finished = match job.processes[k].state {
                        ProcessState::Completed(_) => true,
                        _ => false,
                    };
                    if !finished {
                        let updated = ProcessRecord {
                            pid: job.processes[k].pid,
                            state,
                            summary: job.processes[k].summary.clone(),
                        };
                        job.processes.set(k, updated);
                    }
                    k += 1;
                }
                assert(procs_view(job.processes@) =~= unfinished_set_to(ps, state));
                job.state = derive_job_state(&job.processes);
                let done = job.state == JobState::Completed;
                self.jobs.insert(job_id, job);
                if done && self.foreground_job == Some(job_id) {
                    self.foreground_job = None;
                }
                proof {
                    let t = spec_set_unfinished(old(self).view(), job_id, state).0;
                    assert(self.view().jobs =~= t.jobs);
                }
                true
            },
        }
    }

    /// Marks every unfinished process of job `job_id` running; false if
    /// there is no such job.
    pub fn set_all_processes_running(&mut self, job_id: JobId) -> (found: bool)
        requires
            old(self).wf(),
        ensures
            final(self).wf(),
            (final(self).view(), found) == spec_set_unfinished(
                old(self).view(),
                job_id,
                ProcessState::Running,
            ),
    {
        self.set_unfinished_processes(job_id, ProcessState::Running)
    }

    /// Marks every unfinished process of job `job_id` stopped; false if
    /// there is no such job.
    pub fn set_all_processes_stopped(&mut self, job_id: JobId) -> (found: bool)
        requires
            old(self).wf(),
        ensures
            final(self).wf(),
            (final(self).view(), found) == spec_set_unfinished(
                old(self).view(),
                job_id,
                ProcessState::Stopped,
            ),
    {
        self.set_unfinished_processes(job_id, ProcessState::Stopped)
    }

    pub fn len(&self) -> (n: usize)
        ensures
            n == self.view().jobs.len(),
    {
        proof {
            assert(self.view().jobs.dom() =~= self.jobs@.dom());
        }
        self.jobs.len()
    }

    pub fn is_empty(&self) -> (b: bool)
        ensures
            b == (self.view().jobs.len() == 0),
    {
        proof {
            assert(self.view().jobs.dom() =~= self.jobs@.dom());
        }
        self.jobs.is_empty()
    }

    /// Hands out the next id.
    fn alloc_job_id(&mut self) -> (id: JobId)
        ensures
            id == next_job_id(old(self).next_job_id),
            final(self).next_job_id == id,
            final(self).foreground_job == old(self).foreground_job,
            final(self).jobs == old(self).jobs,
    {
        self.next_job_id = self.next_job_id.saturating_add(1);
        self.next_job_id
    }
}

impl Default for Jobs {
    fn default() -> (r: Jobs)
        ensures
            r.wf(),
            r.view().next_id == 0,
            r.view().foreground is None,
            r.view().jobs == Map::<JobId, JobV>::empty(),
    {
        Jobs::new()
    }
}

impl Clone for Jobs {
    fn clone(&self) -> (r: Self)
        ensures
            r.view() == self.view(),
    {
        Jobs {
            next_job_id: self.next_job_id,
            foreground_job: self.foreground_job,
            jobs: self.jobs.clone(),
        }
    }
}

/// Adding a job files it under an id that no job in the table has (until
/// the ids run out at `u32::MAX`), above every id already handed out,
/// with the state its processes give.
pub proof fn law_insert_files_job_under_fresh_id(
    t: JobsV,
    pgid: u32,
    summary: Seq<char>,
    disposition: JobDisposition,
    processes: Seq<ProcV>,
)
    requires
        well_formed(t),
        t.next_id < u32::MAX,
    ensures
        ({
            let t2 = spec_insert(t, pgid, summary, disposition, processes);
            let id = t2.next_id;
            &&& !t.jobs.contains_key(id)
            &&& forall|k: JobId| #[trigger] t.jobs.contains_key(k) ==> k < id
            &&& t2.jobs[id] == JobV {
                id,
                pgid,
                summary,
                disposition,
                state: job_state_of(processes),
                processes,
            }
            &&& t2.jobs.dom() == t.jobs.dom().insert(id)
            &&& forall|k: JobId| #[trigger] t.jobs.contains_key(k) ==> t2.jobs[k] == t.jobs[k]
        }),
{
    let t2 = spec_insert(t, pgid, summary, disposition, processes);
    assert(t2.jobs.dom() =~= t.jobs.dom().insert(t2.next_id));
}

/// Two jobs added one after the other get increasing ids, until the ids
/// run out.
pub proof fn law_ids_increase(
    t: JobsV,
    pgid: u32,
    summary: Seq<char>,
    disposition: JobDisposition,
    processes: Seq<ProcV>,
    pgid2: u32,
    summary2: Seq<char>,
    disposition2: JobDisposition,
    processes2: Seq<ProcV>,
)
    requires
        t.next_id < u32::MAX - 1,
    ensures
        spec_insert(t, pgid, summary, disposition, processes).next_id < spec_insert(
            spec_insert(t, pgid, summary, disposition, processes),
            pgid2,
            summary2,
            disposition2,
            processes2,
        ).next_id,
{
}

/// A removed job is gone and no longer holds the terminal; the other jobs
/// stay as they were.
pub proof fn law_remove_forgets_job(t: JobsV, id: JobId)
    requires
        well_formed(t),
    ensures
        !spec_remove(t, id).jobs.contains_key(id),
        spec_remove(t, id).foreground != Some(id),
        forall|k: JobId| k != id && #[trigger] t.jobs.contains_key(k) ==> spec_remove(t, id).jobs.contains_key(k)
            && spec_remove(t, id).jobs[k] == t.jobs[k],
        well_formed(spec_remove(t, id)),
{
}

/// A job moved to the foreground holds the terminal; one moved to the
/// background does not.
pub proof fn law_disposition_decides_terminal(t: JobsV, id: JobId, d: JobDisposition)
    requires
        well_formed(t),
        t.jobs.contains_key(id),
    ensures
        spec_set_disposition(t, id, d).1,
        (spec_set_disposition(t, id, d).0.foreground == Some(id)) == (d == JobDisposition::Foreground),
        spec_set_disposition(t, id, d).0.jobs[id].disposition == d,
{
}

/// When the last process of the foreground job that had not completed
/// completes, the job is done and the terminal is free.
pub proof fn law_completed_foreground_job_frees_terminal(
    t: JobsV,
    id: JobId,
    pid: u32,
    code: i32,
)
    requires
        well_formed(t),
        t.foreground == Some(id),
        t.jobs.contains_key(id),
        pid_position(t.jobs[id].processes, pid, 0) is Some,
        forall|i: int|
            0 <= i < t.jobs[id].processes.len() && i != pid_position(t.jobs[id].processes, pid, 0)->0
                ==> (#[trigger] t.jobs[id].processes[i]).state is Completed,
    ensures
        spec_update_process_state(t, id, pid, ProcessState::Completed(code)).1,
        spec_update_process_state(t, id, pid, ProcessState::Completed(code)).0.jobs[id].state
            == JobState::Completed,
        spec_update_process_state(t, id, pid, ProcessState::Completed(code)).0.foreground is None,
{
    let ps = t.jobs[id].processes;
    let k = pid_position(ps, pid, 0)->0;
    lemma_pid_position(ps, pid, 0);
    let ps2 = ps.update(k, ProcV { state: ProcessState::Completed(code), ..ps[k] });
    assert forall|i: int| 0 <= i < ps2.len() implies (#[trigger] ps2[i]).state is Completed by {
        if i != k {
            assert(ps[i].state is Completed);
        }
    }
}

/// Where `pid_position` finds a process, that process has the id asked for.
pub proof fn lemma_pid_position(ps: Seq<ProcV>, pid: u32, i: int)
    requires
        0 <= i,
    ensures
        pid_position(ps, pid, i) matches Some(k) ==> i <= k < ps.len() && ps[k].pid == pid,
    decreases ps.len() - i,
{
    if i < ps.len() && ps[i].pid != pid {
        lemma_pid_position(ps, pid, i + 1);
    }
}

/// The table's invariant over its value.
pub open spec fn well_formed(t: JobsV) -> bool {
    &&& t.jobs.dom().finite()
    &&& forall|k: JobId| #[trigger]
        t.jobs.contains_key(k) ==> {
            &&& t.jobs[k].id == k
            &&& 1 <= k <= t.next_id
            &&& t.jobs[k].state == job_state_of(t.jobs[k].processes)
        }
    &&& t.foreground matches Some(f) ==> t.jobs.contains_key(f)
}

/// The state that `processes` give their job.
fn derive_job_state(processes: &Vec<ProcessRecord>) -> (s: JobState)
    ensures
        s == job_state_of(procs_view(processes@)),
{
    let ghost ps = procs_view(processes@);
    let mut all_done = true;
    let mut any_stopped = false;
    let mut i: usize = 0;
    while i < processes.len()
        invariant
            0 <= i <= processes@.len(),
            ps == procs_view(processes@),
            all_done == forall|k: int| 0 <= k < i ==> (#[trigger] ps[k]).state is Completed,
            any_stopped == exists|k: int| 0 <= k < i && (#[trigger] ps[k]).state is Stopped,
        decreases processes@.len() - i,
    {
        match processes[i].state {
            ProcessState::Completed(_) => {},
            ProcessState::Stopped => {
                all_done = false;
                any_stopped = true;
            },
            ProcessState::Running => {
                all_done = false;
            },
        }
        assert(ps[i as int] == processes@[i as int].view());
        i += 1;
    }
    if all_done {
        JobState::Completed
    } else if any_stopped {
        JobState::Stopped
    } else {
        JobState::Running
    }
}

} // verus!

//! Job table: the registry of background and stopped jobs, keyed by a job
//! id that only ever grows.

use vstd::prelude::*;
use crate::text::{push_decimal, push_str, string_of};

verus! {

/// The lifecycle state of a tracked job.
#[derive(Debug, Clone, Copy, PartialEq, Eq, Structural)]
pub enum JobStatus {
    Running,
    Stopped,
    Done(i32),
}

/// A single tracked background or stopped job. The handle of its process
/// stays with whoever spawned it; the table knows the job by its numbers.
#[derive(Debug)]
pub struct Job {
    pub id: usize,
    pub pid: u32,
    pub pgid: u32,
    pub command: String,
    pub status: JobStatus,
}

/// The mathematical value of a [`Job`].
pub struct JobView {
    pub id: usize,
    pub pid: u32,
    pub pgid: u32,
    pub command: Seq<char>,
    pub status: JobStatus,
}

impl View for Job {
    type V = JobView;

    open spec fn view(&self) -> JobView {
        JobView {
            id: self.id,
            pid: self.pid,
            pgid: self.pgid,
            command: self.command@,
            status: self.status,
        }
    }
}

impl DeepView for Job {
    type V = JobView;

    open spec fn deep_view(&self) -> JobView {
        self@
    }
}

/// The mathematical value of a [`JobTable`]: its jobs in ascending order
/// of id, and the id that the next job will get.
pub struct JobTableView {
    pub jobs: Seq<JobView>,
    pub next_id: int,
}

/// The line that reports a finished job.
pub open spec fn done_line(job: JobView) -> Seq<char> {
    seq!['['] + crate::text::decimal(job.id as nat) + "]  Done  "@ + job.command
}

impl JobTableView {
    /// Ids start at 1, lie below `next_id` and strictly ascend; no job in
    /// the table is `Done`.
    pub open spec fn wf(self) -> bool {
        &&& 1 <= self.next_id <= usize::MAX
        &&& forall|i: int|
            0 <= i < self.jobs.len() ==> 1 <= (#[trigger] self.jobs[i]).id < self.next_id
        &&& forall|i: int, j: int|
            0 <= i < j < self.jobs.len() ==> (#[trigger] self.jobs[i]).id < (
            #[trigger] self.jobs[j]).id
        &&& forall|i: int| 0 <= i < self.jobs.len() ==> !((#[trigger] self.jobs[i]).status is Done)
    }

    pub open spec fn empty() -> JobTableView {
        JobTableView { jobs: Seq::empty(), next_id: 1 }
    }

    /// Whether `i` is the place of the job with this id.
    pub open spec fn is_index_of(self, id: usize, i: int) -> bool {
        0 <= i < self.jobs.len() && self.jobs[i].id == id
    }

    pub open spec fn contains(self, id: usize) -> bool {
        exists|i: int| self.is_index_of(id, i)
    }

    /// The place of the job with this id; meaningful where the table
    /// contains it.
    pub open spec fn index_of(self, id: usize) -> int {
        choose|i: int| self.is_index_of(id, i)
    }

    /// The job with this id, if the table holds it.
    pub open spec fn get(self, id: usize) -> Option<JobView> {
        if self.contains(id) {
            Some(self.jobs[self.index_of(id)])
        } else {
            None
        }
    }

    /// The table after a new job has entered it under the next id.
    pub open spec fn add(self, pid: u32, command: Seq<char>, pgid: u32, status: JobStatus) -> JobTableView {
        JobTableView {
            jobs: self.jobs.push(
                JobView { id: self.next_id as usize, pid, pgid, command, status },
            ),
            next_id: self.next_id + 1,
        }
    }

    /// The table without the job of this id.
    pub open spec fn remove(self, id: usize) -> JobTableView {
        if self.contains(id) {
            JobTableView { jobs: self.jobs.remove(self.index_of(id)), ..self }
        } else {
            self
        }
    }

    /// The table with the status of the job of this id replaced.
    pub open spec fn with_status(self, id: usize, status: JobStatus) -> JobTableView {
        if self.contains(id) {
            let i = self.index_of(id);
            JobTableView {
                jobs: self.jobs.update(i, JobView { status, ..self.jobs[i] }),
                ..self
            }
        } else {
            self
        }
    }

    /// Whether a report that the processes of `finished` ended takes this
    /// job out: it is running, and its id is among them.
    pub open spec fn is_reaped(job: JobView, finished: Seq<usize>) -> bool {
        job.status is Running && finished.contains(job.id)
    }

    /// The jobs that stay when those of `finished` are reaped.
    pub open spec fn survivors(self, finished: Seq<usize>) -> Seq<JobView> {
        self.jobs.filter(|job: JobView| !Self::is_reaped(job, finished))
    }

    /// The jobs that leave when those of `finished` are reaped.
    pub open spec fn reaped(self, finished: Seq<usize>) -> Seq<JobView> {
        self.jobs.filter(|job: JobView| Self::is_reaped(job, finished))
    }

    /// The table after the jobs of `finished` were reaped.
    pub open spec fn reap(self, finished: Seq<usize>) -> JobTableView {
        JobTableView { jobs: self.survivors(finished), ..self }
    }

    /// The ids of the jobs with the given status, ascending.
    pub open spec fn ids_with_status(self, status: JobStatus) -> Seq<usize> {
        self.jobs.filter(|job: JobView| job.status == status).map_values(|job: JobView| job.id)
    }
}

/// In a well-formed table an id has at most one place.
proof fn lemma_index_unique(t: JobTableView, id: usize, i: int)
    requires
        t.wf(),
        t.is_index_of(id, i),
    ensures
        t.contains(id),
        t.index_of(id) == i,
{
    let k = t.index_of(id);
    assert(t.is_index_of(id, k));
    if k < i {
        assert(t.jobs[k].id < t.jobs[i].id);
    } else if i < k {
        assert(t.jobs[i].id < t.jobs[k].id);
    }
}

/// The job that a table holds under an id has that id.
pub proof fn lemma_get_has_id(t: JobTableView, id: usize)
    ensures
        t.get(id) matches Some(job) ==> job.id == id,
{
    if t.contains(id) {
        assert(t.is_index_of(id, t.index_of(id)));
    }
}

/// The shell's job table: tracks all background and stopped jobs.
pub struct JobTable {
    jobs: Vec<Job>,
    next_id: usize,
}

impl View for JobTable {
    type V = JobTableView;

    closed spec fn view(&self) -> JobTableView {
        JobTableView { jobs: self.jobs.deep_view(), next_id: self.next_id as int }
    }
}

fn clone_job(job: &Job) -> (r: Job)
    ensures
        r@ == job@,
{
    Job {
        id: job.id,
        pid: job.pid,
        pgid: job.pgid,
        command: job.command.clone(),
        status: job.status,
    }
}

impl JobTable {
    #[verifier::type_invariant]
    spec fn inv(self) -> bool {
        self@.wf()
    }

    /// An empty table; the first job will get id 1.
    pub fn new() -> (r: JobTable)
        ensures
            r@ == JobTableView::empty(),
            r@.wf(),
    {
        let r = JobTable { jobs: Vec::new(), next_id: 1 };
        assert(r.jobs.deep_view() =~= Seq::empty());
        r
    }

    /// Whether the table can still hand out an id.
    pub fn has_room(&self) -> (r: bool)
        ensures
            r == (self@.next_id < usize::MAX),
            self@.wf(),
    {
        proof {
            use_type_invariant(self);
        }
        self.next_id < usize::MAX
    }

    fn insert(&mut self, pid: u32, command: String, pgid: u32, status: JobStatus) -> (r: (usize, u32))
        requires
            old(self)@.next_id < usize::MAX,
            !(status is Done),
        ensures
            final(self)@ == old(self)@.add(pid, command@, pgid, status),
            final(self)@.wf(),
            old(self)@.wf(),
            r == (old(self)@.next_id as usize, pid),
    {
        proof {
            use_type_invariant(&*self);
        }
        let id = self.next_id;
        let ghost before = self@;
        let job = Job { id, pid, pgid, command, status };
        let mut jobs: Vec<Job> = Vec::new();
        std::mem::swap(&mut jobs, &mut self.jobs);
        assert(self.jobs.deep_view() =~= Seq::empty());
        jobs.push(job);
        self.next_id = id + 1;
        proof {
            assert(jobs.deep_view() =~= before.jobs.push(job@));
            let after = JobTableView { jobs: jobs.deep_view(), next_id: id + 1 };
            assert forall|i: int| 0 <= i < after.jobs.len() implies 1 <= (#[trigger] after.jobs[i]).id
                < after.next_id by {
                if i < before.jobs.len() {
                    assert(after.jobs[i] == before.jobs[i]);
                }
            }
            assert forall|i: int, j: int| 0 <= i < j < after.jobs.len() implies (
            #[trigger] after.jobs[i]).id < (#[trigger] after.jobs[j]).id by {
                assert(after.jobs[i] == before.jobs[i]);
                if j < before.jobs.len() {
                    assert(after.jobs[j] == before.jobs[j]);
                }
            }
            assert forall|i: int| 0 <= i < after.jobs.len() implies !((
            #[trigger] after.jobs[i]).status is Done) by {
                if i < before.jobs.len() {
                    assert(after.jobs[i] == before.jobs[i]);
                }
            }
        }
        self.jobs = jobs;
        (id, pid)
    }

    /// Adds a running background job whose process group is its own
    /// process. Returns `(job_id, pid)`.
    pub fn add(&mut self, pid: u32, command: String) -> (r: (usize, u32))
        requires
            old(self)@.next_id < usize::MAX,
        ensures
            final(self)@ == old(self)@.add(pid, command@, pid, JobStatus::Running),
            final(self)@.wf(),
            r == (old(self)@.next_id as usize, pid),
    {
        self.insert(pid, command, pid, JobStatus::Running)
    }

    /// Adds a running background job with an explicit process-group id.
    pub fn add_with_pgid(&mut self, pid: u32, command: String, pgid: u32) -> (r: (usize, u32))
        requires
            old(self)@.next_id < usize::MAX,
        ensures
            final(self)@ == old(self)@.add(pid, command@, pgid, JobStatus::Running),
            final(self)@.wf(),
            r == (old(self)@.next_id as usize, pid),
    {
        self.insert(pid, command, pgid, JobStatus::Running)
    }

    /// Adds a job that has already been stopped. Returns `(job_id, pid)`.
    pub fn add_stopped(&mut self, pid: u32, command: String) -> (r: (usize, u32))
        requires
            old(self)@.next_id < usize::MAX,
        ensures
            final(self)@ == old(self)@.add(pid, command@, pid, JobStatus::Stopped),
            final(self)@.wf(),
            r == (old(self)@.next_id as usize, pid),
    {
        self.insert(pid, command, pid, JobStatus::Stopped)
    }

    /// Adds a stopped job with an explicit process-group id.
    pub fn add_stopped_with_pgid(&mut self, pid: u32, command: String, pgid: u32) -> (r: (
        usize,
        u32,
    ))
        requires
            old(self)@.next_id < usize::MAX,
        ensures
            final(self)@ == old(self)@.add(pid, command@, pgid, JobStatus::Stopped),
            final(self)@.wf(),
            r == (old(self)@.next_id as usize, pid),
    {
        self.insert(pid, command, pgid, JobStatus::Stopped)
    }

    /// The place of the job with this id.
    fn position(&self, id: usize) -> (r: Option<usize>)
        ensures
            self@.wf(),
            match r {
                Some(i) => self@.contains(id) && self@.index_of(id) == i && i < self.jobs.len(),
                None => !self@.contains(id),
            },
    {
        proof {
            use_type_invariant(self);
        }
        let mut i: usize = 0;
        while i < self.jobs.len()
            invariant
                i <= self.jobs.len(),
                self@.wf(),
                forall|j: int| 0 <= j < i ==> self@.jobs[j].id != id,
            decreases self.jobs.len() - i,
        {
            if self.jobs[i].id == id {
                proof {
                    assert(self@.jobs[i as int] == self.jobs[i as int]@);
                    lemma_index_unique(self@, id, i as int);
                }
                return Some(i);
            }
            assert(self@.jobs[i as int] == self.jobs[i as int]@);
            i += 1;
        }
        None
    }

    /// The job with this id.
    pub fn get(&self, id: usize) -> (r: Option<&Job>)
        ensures
            self@.wf(),
            match self@.get(id) {
                Some(job) => r is Some && r->0@ == job,
                None => r is None,
            },
    {
        match self.position(id) {
            Some(i) => {
                assert(self@.jobs[i as int] == self.jobs[i as int]@);
                Some(&self.jobs[i])
            },
            None => None,
        }
    }

    fn set_status(&mut self, id: usize, status: JobStatus) -> (r: bool)
        requires
            !(status is Done),
        ensures
            r == old(self)@.contains(id),
            final(self)@ == old(self)@.with_status(id, status),
            final(self)@.wf(),
    {
        let ghost before = self@;
        match self.position(id) {
            Some(i) => {
                let mut job = clone_job(&self.jobs[i]);
                assert(before.jobs[i as int] == self.jobs[i as int]@);
                job.status = status;
                let ghost new_job = job@;
                let mut jobs: Vec<Job> = Vec::new();
                let mut k: usize = 0;
                while k < self.jobs.len()
                    invariant
                        k <= self.jobs.len(),
                        i < self.jobs.len(),
                        before == self@,
                        new_job == job@,
                        jobs.len() == k,
                        forall|j: int|
                            0 <= j < k ==> (#[trigger] jobs[j])@ == before.jobs.update(
                                i as int,
                                new_job,
                            )[j],
                    decreases self.jobs.len() - k,
                {
                    assert(before.jobs[k as int] == self.jobs[k as int]@);
                    if k == i {
                        jobs.push(clone_job(&job));
                    } else {
                        jobs.push(clone_job(&self.jobs[k]));
                    }
                    k += 1;
                }
                proof {
                    let updated = before.jobs.update(i as int, new_job);
                    assert(jobs.deep_view() =~= updated);
                    let after = JobTableView { jobs: updated, next_id: before.next_id };
                    assert forall|a: int| 0 <= a < updated.len() implies 1 <= (
                    #[trigger] updated[a]).id < after.next_id && !(updated[a].status is Done) by {
                        assert(updated[a].id == before.jobs[a].id);
                    }
                    assert forall|a: int, b: int| 0 <= a < b < updated.len() implies (
                    #[trigger] updated[a]).id < (#[trigger] updated[b]).id by {
                        assert(updated[a].id == before.jobs[a].id);
                        assert(updated[b].id == before.jobs[b].id);
                    }
                }
                self.jobs = jobs;
                true
            },
            None => false,
        }
    }

    /// Marks the job of this id as running. Returns whether there is one.
    pub fn mark_running(&mut self, id: usize) -> (r: bool)
        ensures
            r == old(self)@.contains(id),
            final(self)@ == old(self)@.with_status(id, JobStatus::Running),
            final(self)@.wf(),
    {
        self.set_status(id, JobStatus::Running)
    }

    /// Marks the job of this id as stopped. Returns whether there is one.
    pub fn mark_stopped(&mut self, id: usize) -> (r: bool)
        ensures
            r == old(self)@.contains(id),
            final(self)@ == old(self)@.with_status(id, JobStatus::Stopped),
            final(self)@.wf(),
    {
        self.set_status(id, JobStatus::Stopped)
    }

    /// Takes the job of this id out of the table.
    pub fn remove(&mut self, id: usize) -> (r: Option<Job>)
        ensures
            final(self)@ == old(self)@.remove(id),
            final(self)@.wf(),
            match old(self)@.get(id) {
                Some(job) => r is Some && r->0@ == job,
                None => r is None,
            },
    {
        let ghost before = self@;
        match self.position(id) {
            Some(i) => {
                assert(before.jobs[i as int] == self.jobs[i as int]@);
                proof {
                    let removed = before.jobs.remove(i as int);
                    let after = JobTableView { jobs: removed, next_id: before.next_id };
                    assert forall|a: int| 0 <= a < removed.len() implies 1 <= (
                    #[trigger] removed[a]).id < after.next_id && !(removed[a].status is Done) by {
                        if a < i {
                            assert(removed[a] == before.jobs[a]);
                        } else {
                            assert(removed[a] == before.jobs[a + 1]);
                        }
                    }
                    assert forall|a: int, b: int| 0 <= a < b < removed.len() implies (
                    #[trigger] removed[a]).id < (#[trigger] removed[b]).id by {
                        let a0 = if a < i { a } else { a + 1 };
                        let b0 = if b < i { b } else { b + 1 };
                        assert(removed[a] == before.jobs[a0]);
                        assert(removed[b] == before.jobs[b0]);
                    }
                    assert(after.wf());
                }
                let mut jobs: Vec<Job> = Vec::new();
                std::mem::swap(&mut jobs, &mut self.jobs);
                let job = jobs.remove(i);
                assert(jobs.deep_view() =~= before.jobs.remove(i as int));
                self.jobs = jobs;
                Some(job)
            },
            None => None,
        }
    }

    /// All jobs, in ascending order of id.
    pub fn jobs_sorted(&self) -> (r: Vec<&Job>)
        ensures
            self@.wf(),
            r.len() == self@.jobs.len(),
            forall|i: int| 0 <= i < r.len() ==> (#[trigger] r[i])@ == self@.jobs[i],
    {
        proof {
            use_type_invariant(self);
        }
        let mut out: Vec<&Job> = Vec::new();
        let mut i: usize = 0;
        while i < self.jobs.len()
            invariant
                i <= self.jobs.len(),
                out.len() == i,
                forall|j: int| 0 <= j < i ==> (#[trigger] out[j])@ == self@.jobs[j],
            decreases self.jobs.len() - i,
        {
            assert(self@.jobs[i as int] == self.jobs[i as int]@);
            out.push(&self.jobs[i]);
            i += 1;
        }
        out
    }

    /// Id of the most recently added job of any status: the default
    /// target of `fg`.
    pub fn most_recent_id(&self) -> (r: Option<usize>)
        ensures
            self@.wf(),
            r == if self@.jobs.len() > 0 {
                Some(self@.jobs.last().id)
            } else {
                None
            },
    {
        proof {
            use_type_invariant(self);
        }
        let n = self.jobs.len();
        if n == 0 {
            None
        } else {
            assert(self@.jobs[n - 1] == self.jobs[n - 1]@);
            Some(self.jobs[n - 1].id)
        }
    }

    /// Id of the most recently added stopped job: the default target of
    /// `bg`.
    pub fn most_recent_stopped_id(&self) -> (r: Option<usize>)
        ensures
            self@.wf(),
            ({
                let stopped = self@.ids_with_status(JobStatus::Stopped);
                r == if stopped.len() > 0 {
                    Some(stopped.last())
                } else {
                    None
                }
            }),
    {
        let ids = self.ids_with_status(JobStatus::Stopped);
        if ids.len() == 0 {
            None
        } else {
            Some(ids[ids.len() - 1])
        }
    }

    fn ids_with_status(&self, status: JobStatus) -> (r: Vec<usize>)
        ensures
            self@.wf(),
            r@ == self@.ids_with_status(status),
    {
        proof {
            use_type_invariant(self);
        }
        let ghost pred = |job: JobView| job.status == status;
        let ghost id_of = |job: JobView| job.id;
        let mut out: Vec<usize> = Vec::new();
        let mut i: usize = 0;
        proof {
            reveal(Seq::filter);
            assert(self@.jobs.take(0).filter(pred) =~= Seq::empty());
        }
        while i < self.jobs.len()
            invariant
                i <= self.jobs.len(),
                pred == (|job: JobView| job.status == status),
                id_of == (|job: JobView| job.id),
                out@ == self@.jobs.take(i as int).filter(pred).map_values(id_of),
            decreases self.jobs.len() - i,
        {
            proof {
                reveal(Seq::filter);
                let jobs = self@.jobs;
                assert(jobs.take(i + 1).drop_last() =~= jobs.take(i as int));
                assert(jobs.take(i + 1).last() == self.jobs[i as int]@);
            }
            let ghost prev = self@.jobs.take(i as int).filter(pred);
            if self.jobs[i].status == status {
                out.push(self.jobs[i].id);
                assert(out@ =~= prev.push(self.jobs[i as int]@).map_values(id_of));
            }
            i += 1;
        }
        assert(self@.jobs.take(i as int) =~= self@.jobs);
        out
    }

    /// Ids of all currently running jobs, ascending: the targets of a bare
    /// `wait`.
    pub fn running_ids(&self) -> (r: Vec<usize>)
        ensures
            self@.wf(),
            r@ == self@.ids_with_status(JobStatus::Running),
    {
        self.ids_with_status(JobStatus::Running)
    }

    /// Takes out the running jobs whose processes were found to have
    /// ended, whose ids are listed in `finished`, and returns one report
    /// line, `[id]  Done  command`, for each job that left, in ascending
    /// order of id. Ids that name no running job are ignored.
    pub fn reap(&mut self, finished: &[usize]) -> (lines: Vec<String>)
        ensures
            final(self)@ == old(self)@.reap(finished@),
            final(self)@.wf(),
            lines.deep_view() == old(self)@.reaped(finished@).map_values(|job: JobView| done_line(job)),
    {
        proof {
            use_type_invariant(&*self);
        }
        let ghost before = self@;
        let ghost gone = |job: JobView| JobTableView::is_reaped(job, finished@);
        let ghost stays = |job: JobView| !JobTableView::is_reaped(job, finished@);
        let ghost line_of = |job: JobView| done_line(job);
        let mut old_jobs: Vec<Job> = Vec::new();
        std::mem::swap(&mut old_jobs, &mut self.jobs);
        assert(self.jobs.deep_view() =~= Seq::empty());
        assert(old_jobs.deep_view() == before.jobs);
        let mut kept: Vec<Job> = Vec::new();
        let mut lines: Vec<String> = Vec::new();
        let mut i: usize = 0;
        proof {
            reveal(Seq::filter);
            assert(before.jobs.take(0).filter(stays) =~= Seq::empty());
            assert(before.jobs.take(0).filter(gone) =~= Seq::empty());
            assert(kept.deep_view() =~= Seq::empty());
            assert(lines.deep_view() =~= Seq::<JobView>::empty().map_values(line_of));
        }
        while i < old_jobs.len()
            invariant
                i <= old_jobs.len(),
                before.wf(),
                old_jobs.deep_view() == before.jobs,
                gone == (|job: JobView| JobTableView::is_reaped(job, finished@)),
                stays == (|job: JobView| !JobTableView::is_reaped(job, finished@)),
                line_of == (|job: JobView| done_line(job)),
                kept.deep_view() == before.jobs.take(i as int).filter(stays),
                lines.deep_view() == before.jobs.take(i as int).filter(gone).map_values(line_of),
            decreases old_jobs.len() - i,
        {
            let ghost kept0 = kept.deep_view();
            let ghost lines0 = lines.deep_view();
            let ghost gone0 = before.jobs.take(i as int).filter(gone);
            proof {
                reveal(Seq::filter);
                let jobs = before.jobs;
                assert(jobs.take(i + 1).drop_last() =~= jobs.take(i as int));
                assert(jobs.take(i + 1).last() == old_jobs[i as int]@);
            }
            let job = &old_jobs[i];
            let leaves = match job.status {
                JobStatus::Running => contains_id(finished, job.id),
                _ => false,
            };
            if leaves {
                lines.push(done_report(job));
                proof {
                    assert(lines.deep_view() =~= lines0.push(done_line(job@)));
                    let grown = gone0.push(job@).map_values(line_of);
                    assert(grown.len() == lines0.len() + 1);
                    assert forall|j: int| 0 <= j < grown.len() implies grown[j]
                        == lines0.push(done_line(job@))[j] by {
                        if j < gone0.len() {
                            assert(gone0.push(job@)[j] == gone0[j]);
                        }
                    }
                    assert(grown =~= lines0.push(done_line(job@)));
                }
            } else {
                kept.push(clone_job(job));
                assert(kept.deep_view() =~= kept0.push(job@));
            }
            i += 1;
        }
        proof {
            assert(before.jobs.take(i as int) =~= before.jobs);
            lemma_filter_keeps_wf(before, stays);
        }
        self.jobs = kept;
        lines
    }
}

/// What is left of a well-formed table when some jobs are dropped is
/// well-formed.
proof fn lemma_filter_keeps_wf(t: JobTableView, keep: spec_fn(JobView) -> bool)
    requires
        t.wf(),
    ensures
        (JobTableView { jobs: t.jobs.filter(keep), ..t }).wf(),
        t.jobs.filter(keep).len() <= t.jobs.len(),
        forall|i: int|
            0 <= i < t.jobs.filter(keep).len() ==> t.jobs.contains(#[trigger] t.jobs.filter(keep)[i]),
        t.jobs.len() > 0 ==> forall|i: int|
            0 <= i < t.jobs.filter(keep).len() ==> (#[trigger] t.jobs.filter(keep)[i]).id
                <= t.jobs.last().id,
    decreases t.jobs.len(),
{
    reveal(Seq::filter);
    if t.jobs.len() > 0 {
        let shorter = JobTableView { jobs: t.jobs.drop_last(), ..t };
        assert forall|i: int| 0 <= i < shorter.jobs.len() implies shorter.jobs[i] == t.jobs[i] by {}
        assert(shorter.wf());
        lemma_filter_keeps_wf(shorter, keep);
        let f0 = shorter.jobs.filter(keep);
        let f = t.jobs.filter(keep);
        assert forall|i: int| 0 <= i < f.len() implies t.jobs.contains(#[trigger] f[i]) && f[i].id
            <= t.jobs.last().id by {
            if i < f0.len() {
                assert(f[i] == f0[i]);
                assert(shorter.jobs.contains(f0[i]));
                let k = choose|k: int| 0 <= k < shorter.jobs.len() && shorter.jobs[k] == f0[i];
                assert(t.jobs[k] == f0[i]);
                if k < t.jobs.len() - 1 {
                    assert(t.jobs[k].id < t.jobs[t.jobs.len() - 1].id);
                }
            } else {
                assert(f[i] == t.jobs.last());
                assert(t.jobs[t.jobs.len() - 1] == t.jobs.last());
            }
        }
        assert forall|i: int, j: int| 0 <= i < j < f.len() implies (#[trigger] f[i]).id < (
        #[trigger] f[j]).id by {
            if j < f0.len() {
                assert(f[i] == f0[i] && f[j] == f0[j]);
            } else {
                assert(f[i] == f0[i]);
                assert(shorter.jobs.contains(f0[i]));
                let k = choose|k: int| 0 <= k < shorter.jobs.len() && shorter.jobs[k] == f0[i];
                assert(t.jobs[k].id < t.jobs[t.jobs.len() - 1].id);
            }
        }
        assert forall|i: int| 0 <= i < f.len() implies 1 <= (#[trigger] f[i]).id < t.next_id && !(
        f[i].status is Done) by {
            assert(t.jobs.contains(f[i]));
            let k = choose|k: int| 0 <= k < t.jobs.len() && t.jobs[k] == f[i];
            assert(t.jobs[k] == f[i]);
        }
    }
}

fn contains_id(ids: &[usize], id: usize) -> (r: bool)
    ensures
        r == ids@.contains(id),
{
    let mut i: usize = 0;
    while i < ids.len()
        invariant
            i <= ids.len(),
            forall|j: int| 0 <= j < i ==> ids@[j] != id,
        decreases ids.len() - i,
    {
        if ids[i] == id {
            assert(ids@[i as int] == id);
            return true;
        }
        i += 1;
    }
    false
}

/// The line that reports a finished job: `[id]  Done  command`.
pub fn done_report(job: &Job) -> (r: String)
    ensures
        r@ == done_line(job@),
{
    let mut out: Vec<char> = Vec::new();
    out.push('[');
    assert(out@ =~= seq!['[']);
    push_decimal(&mut out, job.id as u64);
    push_str(&mut out, "]  Done  ");
    push_str(&mut out, job.command.as_str());
    string_of(&out)
}


// ── Laws ─────────────────────────────────────────────────────────────────

/// An operation on the job table.
pub enum JobOp {
    /// A job enters, running or stopped.
    Add { pid: u32, command: Seq<char>, pgid: u32, stopped: bool },
    /// The job of this id leaves.
    Remove { id: usize },
    /// The job of this id is marked as running.
    MarkRunning { id: usize },
    /// The job of this id is marked as stopped.
    MarkStopped { id: usize },
    /// The running jobs among these ids are reaped.
    Reap { finished: Seq<usize> },
}

impl JobTableView {
    /// The table after the operation.
    pub open spec fn apply(self, op: JobOp) -> JobTableView {
        match op {
            JobOp::Add { pid, command, pgid, stopped } => self.add(
                pid,
                command,
                pgid,
                if stopped {
                    JobStatus::Stopped
                } else {
                    JobStatus::Running
                },
            ),
            JobOp::Remove { id } => self.remove(id),
            JobOp::MarkRunning { id } => self.with_status(id, JobStatus::Running),
            JobOp::MarkStopped { id } => self.with_status(id, JobStatus::Stopped),
            JobOp::Reap { finished } => self.reap(finished),
        }
    }

    /// The table after a series of operations.
    pub open spec fn after(self, ops: Seq<JobOp>) -> JobTableView
        decreases ops.len(),
    {
        if ops.len() == 0 {
            self
        } else {
            self.after(ops.drop_last()).apply(ops.last())
        }
    }

    /// The ids that the jobs got which a series of operations added, in
    /// the order in which they entered.
    pub open spec fn added_ids(self, ops: Seq<JobOp>) -> Seq<usize>
        decreases ops.len(),
    {
        if ops.len() == 0 {
            Seq::empty()
        } else if ops.last() is Add {
            self.added_ids(ops.drop_last()).push(self.after(ops.drop_last()).next_id as usize)
        } else {
            self.added_ids(ops.drop_last())
        }
    }
}

/// Every operation keeps the table well-formed and never lowers the next
/// id; the jobs that are in the table afterwards were there before, or
/// are the one that was added.
pub proof fn lemma_apply_keeps_wf(t: JobTableView, op: JobOp)
    requires
        t.wf(),
        op is Add ==> t.next_id < usize::MAX,
    ensures
        t.apply(op).wf(),
        t.apply(op).next_id == if op is Add {
            t.next_id + 1
        } else {
            t.next_id
        },
{
    match op {
        JobOp::Add { pid, command, pgid, stopped } => {
            let after = t.apply(op);
            assert forall|i: int, j: int| 0 <= i < j < after.jobs.len() implies (
            #[trigger] after.jobs[i]).id < (#[trigger] after.jobs[j]).id by {
                assert(after.jobs[i] == t.jobs[i]);
                if j < t.jobs.len() {
                    assert(after.jobs[j] == t.jobs[j]);
                }
            }
            assert forall|i: int| 0 <= i < after.jobs.len() implies 1 <= (#[trigger] after.jobs[i]).id
                < after.next_id && !(after.jobs[i].status is Done) by {
                if i < t.jobs.len() {
                    assert(after.jobs[i] == t.jobs[i]);
                }
            }
        },
        JobOp::Remove { id } => {
            if t.contains(id) {
                let k = t.index_of(id);
                let after = t.remove(id);
                assert forall|i: int, j: int| 0 <= i < j < after.jobs.len() implies (
                #[trigger] after.jobs[i]).id < (#[trigger] after.jobs[j]).id by {
                    let a = if i < k { i } else { i + 1 };
                    let b = if j < k { j } else { j + 1 };
                    assert(after.jobs[i] == t.jobs[a]);
                    assert(after.jobs[j] == t.jobs[b]);
                }
                assert forall|i: int| 0 <= i < after.jobs.len() implies 1 <= (
                #[trigger] after.jobs[i]).id < after.next_id && !(after.jobs[i].status is Done) by {
                    let a = if i < k { i } else { i + 1 };
                    assert(after.jobs[i] == t.jobs[a]);
                }
            }
        },
        JobOp::MarkRunning { id } => {
            lemma_with_status_keeps_wf(t, id, JobStatus::Running);
        },
        JobOp::MarkStopped { id } => {
            lemma_with_status_keeps_wf(t, id, JobStatus::Stopped);
        },
        JobOp::Reap { finished } => {
            lemma_filter_keeps_wf(t, |job: JobView| !JobTableView::is_reaped(job, finished));
        },
    }
}

proof fn lemma_with_status_keeps_wf(t: JobTableView, id: usize, status: JobStatus)
    requires
        t.wf(),
        !(status is Done),
    ensures
        t.with_status(id, status).wf(),
{
    if t.contains(id) {
        let after = t.with_status(id, status);
        assert forall|i: int, j: int| 0 <= i < j < after.jobs.len() implies (
        #[trigger] after.jobs[i]).id < (#[trigger] after.jobs[j]).id by {
            assert(after.jobs[i].id == t.jobs[i].id);
            assert(after.jobs[j].id == t.jobs[j].id);
        }
        assert forall|i: int| 0 <= i < after.jobs.len() implies 1 <= (#[trigger] after.jobs[i]).id
            < after.next_id && !(after.jobs[i].status is Done) by {
            assert(after.jobs[i].id == t.jobs[i].id);
        }
    }
}

/// Job ids only ever grow: whatever is done to a table, each job that is
/// added gets an id strictly greater than the id of every job that was
/// added before it, and of every job that the table held at the start.
/// Ids are never reused, also after the jobs that had them have left.
pub proof fn lemma_ids_strictly_increase(t: JobTableView, ops: Seq<JobOp>)
    requires
        t.wf(),
        t.next_id + ops.len() <= usize::MAX,
    ensures
        t.after(ops).wf(),
        t.next_id <= t.after(ops).next_id <= t.next_id + ops.len(),
        ({
            let ids = t.added_ids(ops);
            &&& forall|i: int, j: int| 0 <= i < j < ids.len() ==> ids[i] < ids[j]
            &&& forall|i: int| 0 <= i < ids.len() ==> t.next_id <= #[trigger] ids[i] < t.after(
                ops,
            ).next_id
            &&& forall|i: int, k: int|
                0 <= i < ids.len() && 0 <= k < t.jobs.len() ==> (#[trigger] t.jobs[k]).id
                    < #[trigger] ids[i]
        }),
    decreases ops.len(),
{
    if ops.len() > 0 {
        let earlier = ops.drop_last();
        lemma_ids_strictly_increase(t, earlier);
        let before = t.after(earlier);
        lemma_apply_keeps_wf(before, ops.last());
        let ids0 = t.added_ids(earlier);
        let ids = t.added_ids(ops);
        assert forall|i: int, j: int| 0 <= i < j < ids.len() implies ids[i] < ids[j] by {
            if j < ids0.len() {
                assert(ids[i] == ids0[i] && ids[j] == ids0[j]);
            } else {
                assert(ids[i] == ids0[i]);
            }
        }
        assert forall|i: int| 0 <= i < ids.len() implies t.next_id <= #[trigger] ids[i] < t.after(
            ops,
        ).next_id by {
            if i < ids0.len() {
                assert(ids[i] == ids0[i]);
            }
        }
    }
}

/// A job that was reported as done is reported once: the jobs that a
/// reap takes out have distinct ids, each gives one line, none of them is
/// in the table afterwards, and reaping again with the same report takes
/// nothing out.
pub proof fn lemma_done_reported_once(t: JobTableView, finished: Seq<usize>)
    requires
        t.wf(),
    ensures
        t.reap(finished).wf(),
        t.reap(finished).reaped(finished).len() == 0,
        ({
            let gone = t.reaped(finished);
            &&& forall|i: int, j: int| 0 <= i < j < gone.len() ==> gone[i].id != gone[j].id
            &&& forall|i: int| 0 <= i < gone.len() ==> !t.reap(finished).contains(#[trigger] gone[i].id)
            &&& forall|k: int|
                0 <= k < t.jobs.len() && JobTableView::is_reaped(t.jobs[k], finished)
                    ==> gone.contains(#[trigger] t.jobs[k])
        }),
{
    let stays = |job: JobView| !JobTableView::is_reaped(job, finished);
    let leaves = |job: JobView| JobTableView::is_reaped(job, finished);
    lemma_filter_keeps_wf(t, stays);
    lemma_filter_keeps_wf(t, leaves);
    let kept = t.jobs.filter(stays);
    let gone = t.jobs.filter(leaves);
    let after = t.reap(finished);
    assert((JobTableView { jobs: gone, ..t }).wf());
    // Nothing that stays is reaped by the same report.
    lemma_filter_keeps_wf(after, leaves);
    let again = after.jobs.filter(leaves);
    if again.len() > 0 {
        after.jobs.lemma_filter_pred(leaves, 0);
        assert(after.jobs.contains(again[0]));
        let k = choose|k: int| 0 <= k < kept.len() && kept[k] == again[0];
        t.jobs.lemma_filter_pred(stays, k);
    }
    assert forall|i: int| 0 <= i < gone.len() implies !after.contains(#[trigger] gone[i].id) by {
        if after.contains(gone[i].id) {
            let k = choose|k: int| after.is_index_of(gone[i].id, k);
            t.jobs.lemma_filter_pred(stays, k);
            t.jobs.lemma_filter_pred(leaves, i);
            assert(t.jobs.contains(kept[k]));
            assert(t.jobs.contains(gone[i]));
            let a = choose|a: int| 0 <= a < t.jobs.len() && t.jobs[a] == kept[k];
            let b = choose|b: int| 0 <= b < t.jobs.len() && t.jobs[b] == gone[i];
            if a < b {
                assert(t.jobs[a].id < t.jobs[b].id);
            } else if b < a {
                assert(t.jobs[b].id < t.jobs[a].id);
            }
        }
    }
    assert forall|k: int|
        0 <= k < t.jobs.len() && JobTableView::is_reaped(t.jobs[k], finished) implies gone.contains(
        #[trigger] t.jobs[k],
    ) by {
        t.jobs.lemma_filter_contains(leaves, k);
    }
}

} // verus!

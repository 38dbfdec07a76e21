//! The job table: the registry of background processes.
//!
//! The table holds what the interpreter decides on: the id of each job, its
//! command text, and whether its process handle is still in the table. The
//! handles themselves stay with the caller, who finds them by process id.

use vstd::prelude::*;
use vstd::string::*;

verus! {

/// One background job.
#[derive(Debug, PartialEq, Eq)]
pub struct Job {
    /// The id that the table gave to the job: 1 or more.
    pub id: usize,
    /// The command text shown for the job.
    pub command: String,
    /// The process id of the job's process while its handle is in the table;
    /// `None` once the handle was taken out to wait for the process.
    pub child: Option<u32>,
}

/// The mathematical value of a [`Job`].
pub ghost struct JobView {
    pub id: int,
    pub command: Seq<char>,
    pub child: Option<u32>,
}

impl View for Job {
    type V = JobView;

    open spec fn view(&self) -> JobView {
        JobView { id: self.id as int, command: self.command@, child: self.child }
    }
}

/// The values of the jobs of `v`, in order.
pub open spec fn job_views(v: Seq<Job>) -> Seq<JobView> {
    v.map_values(|j: Job| j@)
}

/// The mathematical value of a [`JobManager`]: its jobs, oldest first, and
/// the id that the next job will get.
pub ghost struct TableView {
    pub jobs: Seq<JobView>,
    pub next_id: int,
}

/// The test that a sweep applies to each job: a job stays in the table while
/// its handle is there and its process is not among those that have exited.
pub open spec fn survives(exited: Seq<u32>) -> spec_fn(JobView) -> bool {
    |j: JobView|
        match j.child {
            Some(pid) => !exited.contains(pid),
            None => false,
        }
}

impl TableView {
    /// Whether the table is valid: ids start at 1, each id in the table is
    /// below the next one to give out, and the jobs stand in the order of
    /// their ids, so no id occurs twice.
    pub open spec fn well_formed(self) -> bool {
        &&& self.next_id >= 1
        &&& forall|i: int| 0 <= i < self.jobs.len() ==> 1 <= (#[trigger] self.jobs[i]).id < self.next_id
        &&& forall|i: int, j: int|
            0 <= i < j < self.jobs.len() ==> (#[trigger] self.jobs[i]).id < (#[trigger] self.jobs[j]).id
    }

    /// The table after a job with the given command and process was added.
    pub open spec fn added(self, command: Seq<char>, pid: u32) -> TableView {
        TableView {
            jobs: self.jobs.push(JobView { id: self.next_id, command, child: Some(pid) }),
            next_id: self.next_id + 1,
        }
    }

    /// The table after a sweep, given the processes that have exited.
    pub open spec fn swept(self, exited: Seq<u32>) -> TableView {
        TableView { jobs: self.jobs.filter(survives(exited)), next_id: self.next_id }
    }

    /// Whether the table holds a job with the given id.
    pub open spec fn has_job(self, id: int) -> bool {
        exists|i: int| 0 <= i < self.jobs.len() && (#[trigger] self.jobs[i]).id == id
    }

    /// The table after the handle of the job at position `i` was taken out.
    pub open spec fn taken(self, i: int) -> TableView {
        TableView {
            jobs: self.jobs.update(i, JobView { child: None, ..self.jobs[i] }),
            next_id: self.next_id,
        }
    }
}

/// The id given to a new job is larger than every id in the table, and the
/// table stays valid.
pub proof fn lemma_added_is_fresh(t: TableView, command: Seq<char>, pid: u32)
    requires
        t.well_formed(),
    ensures
        t.added(command, pid).well_formed(),
        !t.has_job(t.next_id),
        forall|i: int| 0 <= i < t.jobs.len() ==> (#[trigger] t.jobs[i]).id < t.next_id,
        t.added(command, pid).next_id > t.next_id,
{
}

/// A sweep keeps the table valid, keeps the id that the next job will get,
/// and keeps only jobs that were there, in their order.
pub proof fn lemma_swept(t: TableView, exited: Seq<u32>)
    requires
        t.well_formed(),
    ensures
        t.swept(exited).well_formed(),
        t.swept(exited).next_id == t.next_id,
        forall|i: int|
            0 <= i < t.swept(exited).jobs.len() ==> t.jobs.contains(#[trigger] t.swept(exited).jobs[i])
                && survives(exited)(t.swept(exited).jobs[i]),
    decreases t.jobs.len(),
{
    reveal(Seq::filter);
    let kept = t.jobs.filter(survives(exited));
    if t.jobs.len() > 0 {
        let shorter = TableView { jobs: t.jobs.drop_last(), next_id: t.next_id };
        lemma_swept(shorter, exited);
        let before = shorter.jobs.filter(survives(exited));
        assert forall|i: int| 0 <= i < before.len() implies (#[trigger] before[i]).id
            < t.jobs.last().id && t.jobs.contains(before[i]) by {
            let k = choose|k: int| 0 <= k < shorter.jobs.len() && shorter.jobs[k] == before[i];
            assert(t.jobs[k] == before[i]);
        }
        if survives(exited)(t.jobs.last()) {
            assert(kept == before.push(t.jobs.last()));
            assert(t.jobs[t.jobs.len() - 1] == t.jobs.last());
        }
    }
}

/// One thing that happens to the job table in the course of a session.
pub ghost enum TableOp {
    /// A job is added.
    Add { command: Seq<char>, pid: u32 },
    /// The table is swept.
    Sweep { exited: Seq<u32> },
    /// The handle of the job at a position is taken out.
    Take { position: int },
}

impl TableView {
    /// The table after `op`. Taking the handle at a position that the table
    /// does not have changes nothing.
    pub open spec fn after(self, op: TableOp) -> TableView {
        match op {
            TableOp::Add { command, pid } => self.added(command, pid),
            TableOp::Sweep { exited } => self.swept(exited),
            TableOp::Take { position } => if 0 <= position < self.jobs.len() {
                self.taken(position)
            } else {
                self
            },
        }
    }

    /// The table after all of `ops`, in order.
    pub open spec fn after_all(self, ops: Seq<TableOp>) -> TableView
        decreases ops.len(),
    {
        if ops.len() == 0 {
            self
        } else {
            self.after_all(ops.drop_last()).after(ops.last())
        }
    }
}

/// Whatever happens to a valid table, it stays valid, and the id that the
/// next job will get never goes down.
pub proof fn lemma_session(t: TableView, ops: Seq<TableOp>)
    requires
        t.well_formed(),
    ensures
        t.after_all(ops).well_formed(),
        t.after_all(ops).next_id >= t.next_id,
    decreases ops.len(),
{
    if ops.len() > 0 {
        lemma_session(t, ops.drop_last());
        let before = t.after_all(ops.drop_last());
        match ops.last() {
            TableOp::Add { command, pid } => {
                lemma_added_is_fresh(before, command, pid);
            },
            TableOp::Sweep { exited } => {
                lemma_swept(before, exited);
            },
            TableOp::Take { position } => {
                if 0 <= position < before.jobs.len() {
                    let after = before.taken(position);
                    assert forall|i: int| 0 <= i < after.jobs.len() implies (
                    #[trigger] after.jobs[i]).id == before.jobs[i].id by {}
                }
            },
        }
    }
}

/// Ids are strictly increasing across a session and never given twice: a job
/// that is added after another, whatever happened to the table in between,
/// gets a larger id, whether or not the earlier job is still in the table;
/// and no job in the table has the id that the next one will get.
pub proof fn lemma_ids_never_reused(
    t: TableView,
    first_command: Seq<char>,
    first_pid: u32,
    between: Seq<TableOp>,
    second_command: Seq<char>,
    second_pid: u32,
)
    requires
        t.well_formed(),
    ensures
        ({
            let one = t.added(first_command, first_pid);
            let later = one.after_all(between);
            let two = later.added(second_command, second_pid);
            &&& one.jobs.last().id == t.next_id
            &&& two.jobs.last().id == later.next_id
            &&& two.jobs.last().id > one.jobs.last().id
            &&& !later.has_job(later.next_id)
            &&& two.well_formed()
        }),
{
    let one = t.added(first_command, first_pid);
    lemma_added_is_fresh(t, first_command, first_pid);
    lemma_session(one, between);
    lemma_added_is_fresh(one.after_all(between), second_command, second_pid);
}

/// The registry of background jobs.
pub struct JobManager {
    jobs: Vec<Job>,
    next_id: usize,
}

impl View for JobManager {
    type V = TableView;

    closed spec fn view(&self) -> TableView {
        TableView { jobs: job_views(self.jobs@), next_id: self.next_id as int }
    }
}

/// Whether `pid` is among `exited`.
fn has_exited(exited: &Vec<u32>, pid: u32) -> (found: bool)
    ensures
        found == exited@.contains(pid),
{
    let mut i: usize = 0;
    while i < exited.len()
        invariant
            i <= exited.len(),
            forall|j: int| 0 <= j < i ==> exited@[j] != pid,
        decreases exited.len() - i,
    {
        if exited[i] == pid {
            return true;
        }
        i += 1;
    }
    false
}

impl JobManager {
    /// An empty table; the first job will get the id 1.
    pub fn new() -> (table: JobManager)
        ensures
            table@.well_formed(),
            table@.jobs.len() == 0,
            table@.next_id == 1,
    {
        let table = JobManager { jobs: Vec::new(), next_id: 1 };
        assert(table@.jobs =~= Seq::<JobView>::empty());
        table
    }

    /// Whether the table can give out another id.
    pub fn has_room(&self) -> (room: bool)
        ensures
            room == (self@.next_id < usize::MAX),
    {
        self.next_id < usize::MAX
    }

    /// Registers a background process and returns the id of its job: the id
    /// that follows the one given out last, whatever has left the table since.
    /// The id is 1 or more, and larger than every id in the table and every
    /// id given out before.
    pub fn add_job(&mut self, command: String, pid: u32) -> (id: usize)
        requires
            old(self)@.well_formed(),
            old(self)@.next_id < usize::MAX,
        ensures
            final(self)@ == old(self)@.added(command@, pid),
            final(self)@.well_formed(),
            id == old(self)@.next_id,
            id >= 1,
            forall|i: int| 0 <= i < old(self)@.jobs.len() ==> (#[trigger] old(self)@.jobs[i]).id < id,
            final(self)@.next_id == id + 1,
    {
        let id = self.next_id;
        self.next_id += 1;
        let job = Job { id, command, child: Some(pid) };
        proof {
            assert(job_views(self.jobs@.push(job)) =~= job_views(self.jobs@).push(job@));
        }
        self.jobs.push(job);
        id
    }

    /// The jobs in the table, oldest first.
    pub fn list_jobs(&self) -> (jobs: &Vec<Job>)
        ensures
            job_views(jobs@) == self@.jobs,
    {
        &self.jobs
    }

    /// The position of the job with the given id.
    fn find(&self, id: usize) -> (at: Option<usize>)
        ensures
            match at {
                Some(i) => i < self.jobs.len() && self@.jobs[i as int].id == id && forall|j: int|
                    0 <= j < i ==> (#[trigger] self@.jobs[j]).id != id,
                None => !self@.has_job(id as int),
            },
    {
        let mut i: usize = 0;
        while i < self.jobs.len()
            invariant
                i <= self.jobs.len(),
                forall|j: int| 0 <= j < i ==> (#[trigger] self@.jobs[j]).id != id,
            decreases self.jobs.len() - i,
        {
            if self.jobs[i].id == id {
                return Some(i);
            }
            i += 1;
        }
        None
    }

    /// The job with the given id, if it is in the table.
    pub fn get_job(&self, id: usize) -> (job: Option<&Job>)
        ensures
            match job {
                Some(j) => j.id == id && self@.jobs.contains(j@),
                None => !self@.has_job(id as int),
            },
    {
        match self.find(id) {
            Some(i) => {
                assert(self@.jobs[i as int] == self.jobs@[i as int]@);
                Some(&self.jobs[i])
            },
            None => None,
        }
    }

    /// Takes the process handle of the job with the given id out of the
    /// table, to bring the job to the foreground: returns the process id and
    /// leaves the job without a handle, so that the next sweep evicts it.
    /// Where there is no such job, or its handle was taken before, the result
    /// is `None` and the table stays as it is.
    pub fn take_child(&mut self, id: usize) -> (pid: Option<u32>)
        requires
            old(self)@.well_formed(),
        ensures
            final(self)@.well_formed(),
            match pid {
                Some(p) => exists|i: int|
                    0 <= i < old(self)@.jobs.len() && (#[trigger] old(self)@.jobs[i]).id == id
                        && old(self)@.jobs[i].child == Some(p) && final(self)@ == old(self)@.taken(i),
                None => final(self)@ == old(self)@ && forall|i: int|
                    0 <= i < old(self)@.jobs.len() && (#[trigger] old(self)@.jobs[i]).id == id
                        ==> old(self)@.jobs[i].child is None,
            },
    {
        match self.find(id) {
            None => None,
            Some(i) => {
                assert(self@.jobs[i as int] == self.jobs@[i as int]@);
                match self.jobs[i].child {
                    None => {
                        assert forall|k: int|
                            0 <= k < self@.jobs.len() && (#[trigger] self@.jobs[k]).id
                                == id implies self@.jobs[k].child is None by {
                            if k != i {
                                assert(self@.jobs[k].id != self@.jobs[i as int].id);
                            }
                        }
                        None
                    },
                    Some(p) => {
                        let mut job = Job { id: 0, command: String::new(), child: None };
                        let ghost before = self@;
                        self.jobs.set_and_swap(i, &mut job);
                        job.child = None;
                        let ghost emptied = job@;
                        self.jobs.set_and_swap(i, &mut job);
                        proof {
                            assert(emptied == JobView { child: None, ..before.jobs[i as int] });
                            assert(self@.jobs =~= before.jobs.update(i as int, emptied));
                            assert(self@ == before.taken(i as int));
                            assert forall|k: int| 0 <= k < self@.jobs.len() implies (
                            #[trigger] self@.jobs[k]).id == before.jobs[k].id by {}
                        }
                        Some(p)
                    },
                }
            },
        }
    }

    /// Sweeps the table, given the process ids of the jobs whose processes
    /// were found to have exited: evicts those jobs, and every job whose
    /// handle was taken out. The other jobs stay, in their order, and the id
    /// for the next job stays as it is.
    pub fn remove_finished(&mut self, exited: &Vec<u32>)
        requires
            old(self)@.well_formed(),
        ensures
            final(self)@ == old(self)@.swept(exited@),
            final(self)@.well_formed(),
    {
        let ghost before = self@;
        let mut source: Vec<Job> = Vec::new();
        std::mem::swap(&mut self.jobs, &mut source);
        let ghost all = job_views(source@);
        assert(all == before.jobs);
        let mut i: usize = 0;
        proof {
            reveal(Seq::filter);
            assert(all.take(0) =~= Seq::<JobView>::empty());
            assert(job_views(self.jobs@) =~= Seq::<JobView>::empty());
        }
        while i < source.len()
            invariant
                i <= source.len(),
                self.next_id == before.next_id,
                job_views(source@).len() == all.len(),
                forall|k: int| i <= k < source.len() ==> source@[k]@ == all[k],
                job_views(self.jobs@) == all.take(i as int).filter(survives(exited@)),
            decreases source.len() - i,
        {
            proof {
                reveal(Seq::filter);
                assert(all.take(i + 1).drop_last() =~= all.take(i as int));
                assert(all.take(i + 1).last() == all[i as int]);
            }
            let stays = match source[i].child {
                Some(pid) => !has_exited(exited, pid),
                None => false,
            };
            assert(stays == survives(exited@)(all[i as int]));
            if stays {
                let mut job = Job { id: 0, command: String::new(), child: None };
                source.set_and_swap(i, &mut job);
                proof {
                    assert(job_views(self.jobs@.push(job)) =~= job_views(self.jobs@).push(job@));
                }
                self.jobs.push(job);
            }
            i += 1;
        }
        proof {
            assert(all.take(i as int) =~= all);
            assert(self@ == before.swept(exited@));
            lemma_swept(before, exited@);
        }
    }
}

} // verus!

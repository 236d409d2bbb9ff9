use vstd::prelude::*;

use crate::cli::JobCommand;
use crate::error::Error;
use crate::layout::find_in_archives;
use crate::layout::parse_media;
use crate::tape::{retrieve, Drive, Object};

verus! {

/// Where one retrieval job stands. `Pending` jobs wait for an operator
/// to start them; `Running` marks the one job holding the drive; the
/// terminal states keep the outcome, a failure with its recorded cause.
#[derive(Clone, Copy, Debug, PartialEq, Eq, Structural)]
pub enum JobState {
    Pending,
    Running,
    Completed,
    Failed(Error),
}

/// One outstanding fetch-by-key request: its id, the key to fetch, a
/// reference to the destination the payload is for, and its state.
#[derive(Clone, Debug, PartialEq, Eq)]
pub struct RetrievalJob {
    pub id: u64,
    pub key: Vec<u8>,
    pub destination: Vec<u8>,
    pub state: JobState,
}

/// Mathematical image of one job.
pub struct JobV {
    pub id: u64,
    pub key: Seq<u8>,
    pub destination: Seq<u8>,
    pub state: JobState,
}

impl View for RetrievalJob {
    type V = JobV;

    open spec fn view(&self) -> JobV {
        JobV { id: self.id, key: self.key@, destination: self.destination@, state: self.state }
    }
}

/// Mathematical image of the queue: jobs in id order, and the next id
/// to hand out.
pub struct JobManagerV {
    pub jobs: Seq<JobV>,
    pub next_id: u64,
}

/// The queue of retrieval jobs. Ids grow monotonically; the queue lists
/// jobs in ascending id order.
pub struct JobManager {
    jobs: Vec<RetrievalJob>,
    next_id: u64,
}

impl View for JobManager {
    type V = JobManagerV;

    closed spec fn view(&self) -> JobManagerV {
        JobManagerV {
            jobs: self.jobs@.map_values(|j: RetrievalJob| j@),
            next_id: self.next_id,
        }
    }
}

/// Index of the job carrying `id`, or -1 if none does.
pub open spec fn job_index(jobs: Seq<JobV>, id: u64) -> int
    decreases jobs.len(),
{
    if jobs.len() == 0 {
        -1
    } else if jobs[0].id == id {
        0
    } else {
        if job_index(jobs.skip(1), id) < 0 {
            -1
        } else {
            job_index(jobs.skip(1), id) + 1
        }
    }
}

/// The first position carrying an id is the position the index finds.
pub proof fn lemma_job_index_first(jobs: Seq<JobV>, id: u64, k: int)
    requires
        0 <= k < jobs.len(),
        jobs[k].id == id,
        forall|i: int| 0 <= i < k ==> (#[trigger] jobs[i]).id != id,
    ensures
        job_index(jobs, id) == k,
    decreases k,
{
    if k > 0 {
        lemma_job_index_first(jobs.skip(1), id, k - 1);
    }
}

/// An id no job carries is not found.
pub proof fn lemma_job_index_absent(jobs: Seq<JobV>, id: u64)
    requires
        forall|i: int| 0 <= i < jobs.len() ==> (#[trigger] jobs[i]).id != id,
    ensures
        job_index(jobs, id) == -1,
    decreases jobs.len(),
{
    if jobs.len() > 0 {
        lemma_job_index_absent(jobs.skip(1), id);
    }
}

/// The queue with every job that is not running removed: pending and
/// terminal jobs go, the running one must finish or fail first.
pub open spec fn keep_running(jobs: Seq<JobV>) -> Seq<JobV>
    decreases jobs.len(),
{
    if jobs.len() == 0 {
        Seq::empty()
    } else if jobs[0].state is Running {
        seq![jobs[0]] + keep_running(jobs.skip(1))
    } else {
        keep_running(jobs.skip(1))
    }
}

/// Every id bound below in the queue is bound below in what remains.
proof fn lemma_keep_running_gt(jobs: Seq<JobV>, a: u64)
    requires
        forall|i: int| 0 <= i < jobs.len() ==> (#[trigger] jobs[i]).id > a,
    ensures
        forall|i: int|
            0 <= i < keep_running(jobs).len() ==> (#[trigger] keep_running(jobs)[i]).id > a,
    decreases jobs.len(),
{
    if jobs.len() > 0 {
        lemma_keep_running_gt(jobs.skip(1), a);
    }
}

/// Every id bound above in the queue is bound above in what remains.
proof fn lemma_keep_running_lt(jobs: Seq<JobV>, b: u64)
    requires
        forall|i: int| 0 <= i < jobs.len() ==> (#[trigger] jobs[i]).id < b,
    ensures
        forall|i: int|
            0 <= i < keep_running(jobs).len() ==> (#[trigger] keep_running(jobs)[i]).id < b,
    decreases jobs.len(),
{
    if jobs.len() > 0 {
        lemma_keep_running_lt(jobs.skip(1), b);
    }
}

/// Removing non-running jobs keeps the ascending id order.
proof fn lemma_keep_running_sorted(jobs: Seq<JobV>)
    requires
        forall|i: int, j: int|
            0 <= i < j < jobs.len() ==> (#[trigger] jobs[i]).id < (#[trigger] jobs[j]).id,
    ensures
        forall|i: int, j: int|
            0 <= i < j < keep_running(jobs).len() ==> (#[trigger] keep_running(jobs)[i]).id < (
            #[trigger] keep_running(jobs)[j]).id,
    decreases jobs.len(),
{
    if jobs.len() > 0 {
        let rest = jobs.skip(1);
        assert(forall|i: int, j: int|
            0 <= i < j < rest.len() ==> (#[trigger] rest[i]).id < (#[trigger] rest[j]).id);
        lemma_keep_running_sorted(rest);
        if jobs[0].state is Running {
            assert(forall|i: int| 0 <= i < rest.len() ==> (#[trigger] rest[i]).id > jobs[0].id);
            lemma_keep_running_gt(rest, jobs[0].id);
        }
    }
}

/// What holds of one job after the manager executed it against the
/// mounted cartridge: its identity is untouched, it ends `Completed`
/// exactly when the payload was delivered, and on a cartridge that
/// parses, delivery is decided by whether the key is stored: the first
/// stored object under the key, or `KeyNotFound`.
pub open spec fn job_executed(
    oldj: JobV,
    newj: JobV,
    blocks: Seq<crate::device::BlockV>,
    delivered: Option<crate::layout::ObjectV>,
) -> bool {
    &&& newj.id == oldj.id
    &&& newj.key == oldj.key
    &&& newj.destination == oldj.destination
    &&& match delivered {
        Some(o) => newj.state == JobState::Completed && o.key == oldj.key,
        None => newj.state matches JobState::Failed(_),
    }
    &&& (parse_media(blocks) matches Some(m) ==> match find_in_archives(m.archives, oldj.key) {
        Some(o) => delivered == Some(o),
        None => delivered == None::<crate::layout::ObjectV> && newj.state == JobState::Failed(
            Error::KeyNotFound,
        ),
    })
}

/// The identity-preserving, terminal-state summary of one executed job:
/// what `start` over all jobs guarantees of each pending job it ran. On
/// a cartridge that parses, a stored key completes the job and an absent
/// key fails it with `KeyNotFound`, whatever order the jobs ran in.
pub open spec fn job_outcome(oldj: JobV, newj: JobV, blocks: Seq<crate::device::BlockV>) -> bool {
    &&& newj.id == oldj.id
    &&& newj.key == oldj.key
    &&& newj.destination == oldj.destination
    &&& (newj.state == JobState::Completed || newj.state matches JobState::Failed(_))
    &&& (parse_media(blocks) matches Some(m) ==> match find_in_archives(m.archives, oldj.key) {
        Some(o) => newj.state == JobState::Completed,
        None => newj.state == JobState::Failed(Error::KeyNotFound),
    })
}

impl JobManager {
    /// Ids ascend along the queue and stay below the next id to hand
    /// out.
    pub open spec fn wf(&self) -> bool {
        &&& forall|i: int, j: int|
            0 <= i < j < self@.jobs.len() ==> (#[trigger] self@.jobs[i]).id < (
            #[trigger] self@.jobs[j]).id
        &&& forall|i: int|
            0 <= i < self@.jobs.len() ==> (#[trigger] self@.jobs[i]).id < self@.next_id
    }

    /// An empty queue.
    pub fn new() -> (m: JobManager)
        ensures
            m.wf(),
            m@.jobs.len() == 0,
            m@.next_id == 0,
    {
        let m = JobManager { jobs: Vec::new(), next_id: 0 };
        proof {
            assert(m@.jobs =~= Seq::<JobV>::empty());
        }
        m
    }

    /// Rebuild the queue from jobs reloaded off persistent storage. The
    /// jobs must come in strictly ascending id order; the next id to hand
    /// out continues after the highest one reloaded.
    pub fn restore(jobs: Vec<RetrievalJob>) -> (r: Result<JobManager, Error>)
        ensures
            match r {
                Ok(m) => {
                    &&& m.wf()
                    &&& m@.jobs == jobs@.map_values(|j: RetrievalJob| j@)
                },
                Err(e) => e == Error::InvalidJobState,
            },
    {
        let n = jobs.len();
        let mut i: usize = 1;
        #[verifier::loop_isolation(false)]
        while i < n
            invariant
                1 <= i,
                i <= n || n == 0,
                forall|a: int, b: int|
                    0 <= a < b < i && b < n ==> (#[trigger] jobs@[a]).id < (#[trigger] jobs@[b]).id,
            decreases n - i,
        {
            if jobs[i - 1].id >= jobs[i].id {
                return Err(Error::InvalidJobState);
            }
            proof {
                assert forall|a: int, b: int|
                    0 <= a < b < i + 1 && b < n implies (#[trigger] jobs@[a]).id < (
                #[trigger] jobs@[b]).id by {
                    if b == i {
                        if a < i - 1 {
                            assert(jobs@[a].id < jobs@[i - 1].id);
                        }
                    }
                }
            }
            i = i + 1;
        }
        let next_id: u64 = if n == 0 {
            0
        } else {
            let last = jobs[n - 1].id;
            if last == u64::MAX {
                return Err(Error::InvalidJobState);
            }
            last + 1
        };
        let m = JobManager { jobs, next_id };
        proof {
            assert forall|k: int| 0 <= k < m@.jobs.len() implies (#[trigger] m@.jobs[k]).id
                < m@.next_id by {
                if k < n - 1 {
                    assert(m@.jobs[k].id < m@.jobs[n - 1].id);
                }
            }
        }
        Ok(m)
    }

    /// File a new retrieval request: it enters `Pending` under the next
    /// sequential id. Duplicate keys are permitted.
    pub fn enqueue(&mut self, key: &[u8], destination: &[u8]) -> (id: u64)
        requires
            old(self).wf(),
            old(self)@.next_id < u64::MAX,
        ensures
            final(self).wf(),
            id == old(self)@.next_id,
            final(self)@.jobs == old(self)@.jobs + seq![
                JobV { id, key: key@, destination: destination@, state: JobState::Pending },
            ],
            final(self)@.next_id == old(self)@.next_id + 1,
    {
        let id = self.next_id;
        let job = RetrievalJob {
            id,
            key: vstd::slice::slice_to_vec(key),
            destination: vstd::slice::slice_to_vec(destination),
            state: JobState::Pending,
        };
        self.jobs.push(job);
        self.next_id = self.next_id + 1;
        proof {
            assert(self@.jobs =~= old(self)@.jobs + seq![
                JobV { id, key: key@, destination: destination@, state: JobState::Pending },
            ]);
        }
        id
    }

    /// Whether another job can still be filed: the id counter has not
    /// reached its end.
    pub fn enqueue_possible(&self) -> (r: bool)
        ensures
            r == (self@.next_id < u64::MAX),
    {
        self.next_id < u64::MAX
    }

    /// Give the jobs back, in ascending id order, for persistence.
    pub fn into_jobs(self) -> (r: Vec<RetrievalJob>)
        ensures
            r@.map_values(|j: RetrievalJob| j@) == self@.jobs,
    {
        self.jobs
    }

    /// The jobs in ascending id order, each with its state.
    pub fn list(&self) -> (r: Vec<(u64, JobState)>)
        requires
            self.wf(),
        ensures
            r@.len() == self@.jobs.len(),
            forall|i: int|
                0 <= i < r@.len() ==> (#[trigger] r@[i]).0 == self@.jobs[i].id && r@[i].1
                    == self@.jobs[i].state,
    {
        let mut out: Vec<(u64, JobState)> = Vec::new();
        let n = self.jobs.len();
        let mut i: usize = 0;
        #[verifier::loop_isolation(false)]
        while i < n
            invariant
                i <= n,
                out@.len() == i,
                forall|k: int|
                    0 <= k < i ==> (#[trigger] out@[k]).0 == self@.jobs[k].id && out@[k].1
                        == self@.jobs[k].state,
            decreases n - i,
        {
            let j = &self.jobs[i];
            out.push((j.id, j.state));
            i = i + 1;
        }
        out
    }

    /// Find the position of the job carrying `id`.
    fn position_of(&self, id: u64) -> (r: Option<usize>)
        requires
            self.wf(),
        ensures
            match r {
                Some(i) => i == job_index(self@.jobs, id) && i < self@.jobs.len()
                    && self@.jobs[i as int].id == id,
                None => job_index(self@.jobs, id) == -1,
            },
    {
        let n = self.jobs.len();
        let mut i: usize = 0;
        #[verifier::loop_isolation(false)]
        while i < n
            invariant
                i <= n,
                forall|k: int| 0 <= k < i ==> (#[trigger] self@.jobs[k]).id != id,
            decreases n - i,
        {
            if self.jobs[i].id == id {
                proof {
                    lemma_job_index_first(self@.jobs, id, i as int);
                }
                return Some(i);
            }
            i = i + 1;
        }
        proof {
            lemma_job_index_absent(self@.jobs, id);
        }
        None
    }

    /// Detail of one job; `JobNotFound` for an unknown id.
    pub fn info(&self, id: u64) -> (r: Result<&RetrievalJob, Error>)
        requires
            self.wf(),
        ensures
            match r {
                Ok(j) => job_index(self@.jobs, id) >= 0 && j@ == self@.jobs[job_index(
                    self@.jobs,
                    id,
                )],
                Err(e) => e == Error::JobNotFound && job_index(self@.jobs, id) == -1,
            },
    {
        match self.position_of(id) {
            Some(i) => Ok(&self.jobs[i]),
            None => Err(Error::JobNotFound),
        }
    }

    /// Remove one pending or terminal job; a running job holds the drive
    /// and is rejected with `InvalidJobState`.
    pub fn drop_job(&mut self, id: u64) -> (r: Result<(), Error>)
        requires
            old(self).wf(),
        ensures
            final(self).wf(),
            final(self)@.next_id == old(self)@.next_id,
            job_index(old(self)@.jobs, id) == -1 ==> r == Err::<(), Error>(Error::JobNotFound)
                && final(self)@ == old(self)@,
            job_index(old(self)@.jobs, id) >= 0 && old(self)@.jobs[job_index(
                old(self)@.jobs,
                id,
            )].state is Running ==> r == Err::<(), Error>(Error::InvalidJobState) && final(self)@
                == old(self)@,
            job_index(old(self)@.jobs, id) >= 0 && !(old(self)@.jobs[job_index(
                old(self)@.jobs,
                id,
            )].state is Running) ==> r is Ok && final(self)@.jobs == old(self)@.jobs.remove(
                job_index(old(self)@.jobs, id),
            ),
    {
        match self.position_of(id) {
            None => Err(Error::JobNotFound),
            Some(i) => {
                if matches!(self.jobs[i].state, JobState::Running) {
                    return Err(Error::InvalidJobState);
                }
                self.jobs.remove(i);
                proof {
                    assert(self@.jobs =~= old(self)@.jobs.remove(i as int));
                    assert forall|a: int, b: int|
                        0 <= a < b < self@.jobs.len() implies (#[trigger] self@.jobs[a]).id < (
                    #[trigger] self@.jobs[b]).id by {
                        if b < i {
                            assert(old(self)@.jobs[a].id < old(self)@.jobs[b].id);
                        } else if a < i {
                            assert(old(self)@.jobs[a].id < old(self)@.jobs[b + 1].id);
                        } else {
                            assert(old(self)@.jobs[a + 1].id < old(self)@.jobs[b + 1].id);
                        }
                    }
                }
                Ok(())
            },
        }
    }

    /// Remove every pending and terminal job at once; running jobs stay.
    pub fn drop_all(&mut self)
        requires
            old(self).wf(),
        ensures
            final(self).wf(),
            final(self)@.next_id == old(self)@.next_id,
            final(self)@.jobs == keep_running(old(self)@.jobs),
    {
        let n = self.jobs.len();
        let mut out: Vec<RetrievalJob> = Vec::new();
        let mut i: usize = 0;
        proof {
            assert(out@.map_values(|j: RetrievalJob| j@) =~= Seq::<JobV>::empty());
            assert(self@.jobs.skip(0) =~= self@.jobs);
        }
        #[verifier::loop_isolation(false)]
        while i < n
            invariant
                i <= n,
                n == self@.jobs.len(),
                self@ == old(self)@,
                out@.map_values(|j: RetrievalJob| j@) + keep_running(self@.jobs.skip(i as int))
                    =~= keep_running(self@.jobs),
            decreases n - i,
        {
            let ghost pre = out@.map_values(|j: RetrievalJob| j@);
            let ghost rest = self@.jobs.skip(i as int);
            proof {
                assert(rest[0] == self@.jobs[i as int]);
                assert(rest.skip(1) =~= self@.jobs.skip(i as int + 1));
            }
            if matches!(self.jobs[i].state, JobState::Running) {
                let ghost outpre = out@;
                let src_job = &self.jobs[i];
                let j = RetrievalJob {
                    id: src_job.id,
                    key: vstd::slice::slice_to_vec(src_job.key.as_slice()),
                    destination: vstd::slice::slice_to_vec(src_job.destination.as_slice()),
                    state: src_job.state,
                };
                proof {
                    assert(rest[0].state is Running);
                    assert(j@ == self@.jobs[i as int]);
                }
                out.push(j);
                proof {
                    assert(out@.map_values(|j: RetrievalJob| j@) =~= pre + seq![
                        self@.jobs[i as int],
                    ]) by {
                        assert forall|k: int|
                            0 <= k < out@.len() implies out@.map_values(|j: RetrievalJob| j@)[k]
                            == (pre + seq![self@.jobs[i as int]])[k] by {
                            if k < outpre.len() {
                                assert(out@[k] == outpre[k]);
                            }
                        }
                    }
                    assert(pre + seq![self@.jobs[i as int]] + keep_running(
                        self@.jobs.skip(i as int + 1),
                    ) =~= keep_running(self@.jobs));
                }
            } else {
                proof {
                    assert(!(rest[0].state is Running));
                    assert(keep_running(rest) == keep_running(rest.skip(1)));
                }
            }
            i = i + 1;
        }
        proof {
            assert(self@.jobs.skip(n as int) =~= Seq::<JobV>::empty());
            assert(keep_running(Seq::<JobV>::empty()) =~= Seq::<JobV>::empty());
            assert(out@.map_values(|j: RetrievalJob| j@) =~= keep_running(self@.jobs));
        }
        self.jobs = out;
        proof {
            lemma_keep_running_sorted(old(self)@.jobs);
            lemma_keep_running_lt(old(self)@.jobs, old(self)@.next_id);
        }
    }

    /// Run the pending job at position `i` against the drive: mark it
    /// running, retrieve its key from the mounted cartridge, then record
    /// the outcome as its terminal state. The payload, if any, is handed
    /// back for transfer to the job's destination.
    fn execute_at(&mut self, i: usize, drive: &mut Drive) -> (r: Option<Object>)
        requires
            old(self).wf(),
            old(drive).wf(),
            i < old(self)@.jobs.len(),
            old(self)@.jobs[i as int].state is Pending,
        ensures
            final(self).wf(),
            final(drive).wf(),
            final(drive)@.blocks == old(drive)@.blocks,
            final(drive)@.write_protect == old(drive)@.write_protect,
            final(self)@.next_id == old(self)@.next_id,
            final(self)@.jobs.len() == old(self)@.jobs.len(),
            forall|k: int|
                0 <= k < old(self)@.jobs.len() && k != i ==> final(self)@.jobs[k] == old(
                    self,
                )@.jobs[k],
            job_executed(
                old(self)@.jobs[i as int],
                final(self)@.jobs[i as int],
                old(drive)@.blocks,
                match r {
                    Some(o) => Some(o@),
                    None => None,
                },
            ),
    {
        let key = vstd::slice::slice_to_vec(self.jobs[i].key.as_slice());
        {
            let j = vstd::std_specs::vec::vec_index_mut(&mut self.jobs, i);
            j.state = JobState::Running;
        }
        proof {
            assert(self@.jobs =~= old(self)@.jobs.update(
                i as int,
                JobV {
                    id: old(self)@.jobs[i as int].id,
                    key: old(self)@.jobs[i as int].key,
                    destination: old(self)@.jobs[i as int].destination,
                    state: JobState::Running,
                },
            ));
        }
        let outcome = retrieve(drive, key.as_slice());
        let (state, ret): (JobState, Option<Object>) = match outcome {
            Ok(obj) => (JobState::Completed, Some(obj)),
            Err(e) => (JobState::Failed(e), None),
        };
        {
            let j = vstd::std_specs::vec::vec_index_mut(&mut self.jobs, i);
            j.state = state;
        }
        proof {
            assert(self@.jobs =~= old(self)@.jobs.update(
                i as int,
                JobV {
                    id: old(self)@.jobs[i as int].id,
                    key: old(self)@.jobs[i as int].key,
                    destination: old(self)@.jobs[i as int].destination,
                    state: state,
                },
            ));
            assert forall|a: int, b: int|
                0 <= a < b < self@.jobs.len() implies (#[trigger] self@.jobs[a]).id < (
            #[trigger] self@.jobs[b]).id by {
                assert(old(self)@.jobs[a].id < old(self)@.jobs[b].id);
            }
        }
        ret
    }

    /// Start one pending job by id. `JobNotFound` for an unknown id,
    /// `InvalidJobState` for one not pending. The drive is held
    /// exclusively for the whole execution; the payload, if retrieved,
    /// is handed back for transfer to the destination.
    pub fn start_job(&mut self, id: u64, drive: &mut Drive) -> (r: Result<Option<Object>, Error>)
        requires
            old(self).wf(),
            old(drive).wf(),
        ensures
            final(self).wf(),
            final(drive).wf(),
            final(drive)@.blocks == old(drive)@.blocks,
            final(drive)@.write_protect == old(drive)@.write_protect,
            final(self)@.next_id == old(self)@.next_id,
            job_index(old(self)@.jobs, id) == -1 ==> r == Err::<Option<Object>, Error>(
                Error::JobNotFound,
            ) && final(self)@ == old(self)@,
            job_index(old(self)@.jobs, id) >= 0 && !(old(self)@.jobs[job_index(
                old(self)@.jobs,
                id,
            )].state is Pending) ==> r == Err::<Option<Object>, Error>(Error::InvalidJobState)
                && final(self)@ == old(self)@,
            job_index(old(self)@.jobs, id) >= 0 && old(self)@.jobs[job_index(
                old(self)@.jobs,
                id,
            )].state is Pending ==> {
                &&& r matches Ok(delivered)
                &&& final(self)@.jobs.len() == old(self)@.jobs.len()
                &&& forall|k: int|
                    0 <= k < old(self)@.jobs.len() && k != job_index(old(self)@.jobs, id)
                        ==> final(self)@.jobs[k] == old(self)@.jobs[k]
                &&& job_executed(
                    old(self)@.jobs[job_index(old(self)@.jobs, id)],
                    final(self)@.jobs[job_index(old(self)@.jobs, id)],
                    old(drive)@.blocks,
                    match delivered {
                        Some(o) => Some(o@),
                        None => None,
                    },
                )
            },
    {
        match self.position_of(id) {
            None => Err(Error::JobNotFound),
            Some(i) => {
                if !matches!(self.jobs[i].state, JobState::Pending) {
                    return Err(Error::InvalidJobState);
                }
                Ok(self.execute_at(i, drive))
            },
        }
    }

    /// Start every pending job, ascending by id. Each job's outcome is
    /// recorded independently: one failure never aborts the batch.
    pub fn start_all(&mut self, drive: &mut Drive) -> (deliveries: Vec<(u64, Object)>)
        requires
            old(self).wf(),
            old(drive).wf(),
        ensures
            final(self).wf(),
            final(drive).wf(),
            final(drive)@.blocks == old(drive)@.blocks,
            final(drive)@.write_protect == old(drive)@.write_protect,
            final(self)@.next_id == old(self)@.next_id,
            final(self)@.jobs.len() == old(self)@.jobs.len(),
            forall|k: int|
                0 <= k < old(self)@.jobs.len() ==> if (#[trigger] old(self)@.jobs[k]).state
                    is Pending {
                    job_outcome(old(self)@.jobs[k], final(self)@.jobs[k], old(drive)@.blocks)
                } else {
                    final(self)@.jobs[k] == old(self)@.jobs[k]
                },
            forall|d: int|
                0 <= d < deliveries@.len() ==> {
                    let ji = job_index(old(self)@.jobs, (#[trigger] deliveries@[d]).0);
                    &&& ji >= 0
                    &&& old(self)@.jobs[ji].state is Pending
                    &&& deliveries@[d].1@.key == old(self)@.jobs[ji].key
                    &&& final(self)@.jobs[ji].state == JobState::Completed
                },
    {
        let n = self.jobs.len();
        let mut i: usize = 0;
        let mut deliveries: Vec<(u64, Object)> = Vec::new();
        #[verifier::loop_isolation(false)]
        while i < n
            invariant
                self.wf(),
                drive.wf(),
                i <= n,
                n == self@.jobs.len(),
                self@.jobs.len() == old(self)@.jobs.len(),
                self@.next_id == old(self)@.next_id,
                drive@.blocks == old(drive)@.blocks,
                drive@.write_protect == old(drive)@.write_protect,
                forall|k: int|
                    i <= k < old(self)@.jobs.len() ==> self@.jobs[k] == old(self)@.jobs[k],
                forall|k: int|
                    0 <= k < i ==> if (#[trigger] old(self)@.jobs[k]).state is Pending {
                        job_outcome(old(self)@.jobs[k], self@.jobs[k], old(drive)@.blocks)
                    } else {
                        self@.jobs[k] == old(self)@.jobs[k]
                    },
                forall|d: int|
                    0 <= d < deliveries@.len() ==> {
                        let ji = job_index(old(self)@.jobs, (#[trigger] deliveries@[d]).0);
                        &&& 0 <= ji < old(self)@.jobs.len()
                        &&& old(self)@.jobs[ji].state is Pending
                        &&& deliveries@[d].1@.key == old(self)@.jobs[ji].key
                        &&& self@.jobs[ji].state == JobState::Completed
                    },
            decreases n - i,
        {
            if matches!(self.jobs[i].state, JobState::Pending) {
                let id = self.jobs[i].id;
                let ghost jobs_pre = self@.jobs;
                let delivered = self.execute_at(i, drive);
                proof {
                    let d = match delivered {
                        Some(ref o) => Some(o@),
                        None => None::<crate::layout::ObjectV>,
                    };
                    assert(job_executed(
                        old(self)@.jobs[i as int],
                        self@.jobs[i as int],
                        old(drive)@.blocks,
                        d,
                    ));
                    assert(job_outcome(
                        old(self)@.jobs[i as int],
                        self@.jobs[i as int],
                        old(drive)@.blocks,
                    ));
                    // earlier deliveries point at jobs already completed,
                    // never at the one just executed
                    assert forall|d2: int| 0 <= d2 < deliveries@.len() implies {
                        let ji = job_index(old(self)@.jobs, (#[trigger] deliveries@[d2]).0);
                        self@.jobs[ji].state == JobState::Completed
                    } by {
                        let ji = job_index(old(self)@.jobs, deliveries@[d2].0);
                        assert(jobs_pre[ji].state == JobState::Completed);
                        assert(jobs_pre[i as int].state is Pending);
                        assert(ji != i as int);
                    }
                }
                if let Some(obj) = delivered {
                    let ghost pre = deliveries@;
                    let ghost okey = obj@.key;
                    deliveries.push((id, obj));
                    proof {
                        assert(forall|i2: int|
                            0 <= i2 < i ==> (#[trigger] old(self)@.jobs[i2]).id != id);
                        lemma_job_index_first(old(self)@.jobs, id, i as int);
                        assert forall|d2: int| 0 <= d2 < deliveries@.len() implies {
                            let ji = job_index(old(self)@.jobs, (#[trigger] deliveries@[d2]).0);
                            &&& 0 <= ji < old(self)@.jobs.len()
                            &&& old(self)@.jobs[ji].state is Pending
                            &&& deliveries@[d2].1@.key == old(self)@.jobs[ji].key
                            &&& self@.jobs[ji].state == JobState::Completed
                        } by {
                            if d2 < pre.len() {
                                assert(deliveries@[d2] == pre[d2]);
                            } else {
                                assert(deliveries@[d2].0 == id && deliveries@[d2].1@.key == okey);
                                assert(job_index(old(self)@.jobs, id) == i as int);
                            }
                        }
                    }
                }
            }
            i = i + 1;
        }
        deliveries
    }

    /// Reload recovery: a job still marked running was interrupted by a
    /// crash between start and completion. It is moved to `Failed`
    /// rather than silently re-run, since a partial transfer into its
    /// destination is not safely resumable.
    pub fn recover(&mut self)
        requires
            old(self).wf(),
        ensures
            final(self).wf(),
            final(self)@.next_id == old(self)@.next_id,
            final(self)@.jobs.len() == old(self)@.jobs.len(),
            forall|k: int|
                0 <= k < old(self)@.jobs.len() ==> if (#[trigger] old(self)@.jobs[k]).state
                    is Running {
                    final(self)@.jobs[k] == (JobV {
                        id: old(self)@.jobs[k].id,
                        key: old(self)@.jobs[k].key,
                        destination: old(self)@.jobs[k].destination,
                        state: JobState::Failed(Error::Interrupted),
                    })
                } else {
                    final(self)@.jobs[k] == old(self)@.jobs[k]
                },
    {
        let n = self.jobs.len();
        let mut i: usize = 0;
        #[verifier::loop_isolation(false)]
        while i < n
            invariant
                self.wf(),
                i <= n,
                n == self@.jobs.len(),
                self@.jobs.len() == old(self)@.jobs.len(),
                self@.next_id == old(self)@.next_id,
                forall|k: int|
                    i <= k < old(self)@.jobs.len() ==> self@.jobs[k] == old(self)@.jobs[k],
                forall|k: int|
                    0 <= k < i ==> if (#[trigger] old(self)@.jobs[k]).state is Running {
                        self@.jobs[k] == (JobV {
                            id: old(self)@.jobs[k].id,
                            key: old(self)@.jobs[k].key,
                            destination: old(self)@.jobs[k].destination,
                            state: JobState::Failed(Error::Interrupted),
                        })
                    } else {
                        self@.jobs[k] == old(self)@.jobs[k]
                    },
            decreases n - i,
        {
            if matches!(self.jobs[i].state, JobState::Running) {
                let ghost jobs_pre = self@.jobs;
                let j = vstd::std_specs::vec::vec_index_mut(&mut self.jobs, i);
                j.state = JobState::Failed(Error::Interrupted);
                proof {
                    assert(self@.jobs =~= jobs_pre.update(
                        i as int,
                        JobV {
                            id: jobs_pre[i as int].id,
                            key: jobs_pre[i as int].key,
                            destination: jobs_pre[i as int].destination,
                            state: JobState::Failed(Error::Interrupted),
                        },
                    ));
                    assert forall|a: int, b: int|
                        0 <= a < b < self@.jobs.len() implies (#[trigger] self@.jobs[a]).id < (
                    #[trigger] self@.jobs[b]).id by {
                        assert(old(self)@.jobs[a].id < old(self)@.jobs[b].id);
                    }
                }
            }
            i = i + 1;
        }
    }
}

/// What a job command produced: one job's detail, the listing, the
/// payload a started job delivered (if any), or nothing to show.
pub enum RunOutcome {
    Detail(RetrievalJob),
    Listing(Vec<(u64, JobState)>),
    Started(Option<Object>),
    Delivered(Vec<(u64, Object)>),
    Done,
}

/// Dispatch one job command against the queue and the drive: detail and
/// listing leave both untouched; start and drop act as the matching
/// queue operations do.
pub fn run(command: &JobCommand, manager: &mut JobManager, drive: &mut Drive) -> (r: Result<
    RunOutcome,
    Error,
>)
    requires
        old(manager).wf(),
        old(drive).wf(),
    ensures
        final(manager).wf(),
        final(drive).wf(),
        final(drive)@.blocks == old(drive)@.blocks,
        final(drive)@.write_protect == old(drive)@.write_protect,
        final(manager)@.next_id == old(manager)@.next_id,
        command matches JobCommand::Info { job_id } ==> final(manager)@ == old(manager)@ && (
        match r {
            Ok(o) => o matches RunOutcome::Detail(j) && job_index(
                old(manager)@.jobs,
                job_id as u64,
            ) >= 0 && j@ == old(manager)@.jobs[job_index(old(manager)@.jobs, job_id as u64)],
            Err(e) => e == Error::JobNotFound && job_index(old(manager)@.jobs, job_id as u64)
                == -1,
        }),
        command matches JobCommand::List {  } ==> final(manager)@ == old(manager)@ && r is Ok,
        command matches JobCommand::Drop { job_id: None } ==> r is Ok && final(manager)@.jobs
            == keep_running(old(manager)@.jobs),
        command matches JobCommand::Drop { job_id: Some(id) } ==> {
            let ji = job_index(old(manager)@.jobs, id as u64);
            &&& ji == -1 ==> r == Err::<RunOutcome, Error>(Error::JobNotFound) && final(manager)@ == old(manager)@
            &&& ji >= 0 && old(manager)@.jobs[ji].state is Running ==> r == Err::<
                RunOutcome,
                Error,
            >(Error::InvalidJobState) && final(manager)@ == old(manager)@
            &&& ji >= 0 && !(old(manager)@.jobs[ji].state is Running) ==> r is Ok && final(manager)@.jobs == old(manager)@.jobs.remove(ji)
        },
        command matches JobCommand::Start { job_id: Some(id) } ==> {
            let ji = job_index(old(manager)@.jobs, id as u64);
            &&& ji == -1 ==> r == Err::<RunOutcome, Error>(Error::JobNotFound) && final(manager)@ == old(manager)@
            &&& ji >= 0 && !(old(manager)@.jobs[ji].state is Pending) ==> r == Err::<
                RunOutcome,
                Error,
            >(Error::InvalidJobState) && final(manager)@ == old(manager)@
            &&& ji >= 0 && old(manager)@.jobs[ji].state is Pending ==> (r matches Ok(o) && (
            o matches RunOutcome::Started(delivered) && job_executed(
                old(manager)@.jobs[ji],
                final(manager)@.jobs[ji],
                old(drive)@.blocks,
                match delivered {
                    Some(ob) => Some(ob@),
                    None => None,
                },
            )))
        },
        command matches JobCommand::Start { job_id: None } ==> r is Ok && final(manager)@.jobs.len() == old(manager)@.jobs.len() && forall|k: int|
            0 <= k < old(manager)@.jobs.len() ==> if (#[trigger] old(
                manager,
            )@.jobs[k]).state is Pending {
                job_outcome(old(manager)@.jobs[k], final(manager)@.jobs[k], old(drive)@.blocks)
            } else {
                final(manager)@.jobs[k] == old(manager)@.jobs[k]
            },
{
    match command {
        JobCommand::Info { job_id } => {
            match manager.info(*job_id as u64) {
                Ok(j) => {
                    let detail = RetrievalJob {
                        id: j.id,
                        key: vstd::slice::slice_to_vec(j.key.as_slice()),
                        destination: vstd::slice::slice_to_vec(j.destination.as_slice()),
                        state: j.state,
                    };
                    Ok(RunOutcome::Detail(detail))
                },
                Err(e) => Err(e),
            }
        },
        JobCommand::List {  } => Ok(RunOutcome::Listing(manager.list())),
        JobCommand::Start { job_id } => {
            match job_id {
                Some(id) => {
                    match manager.start_job(*id as u64, drive) {
                        Ok(delivered) => Ok(RunOutcome::Started(delivered)),
                        Err(e) => Err(e),
                    }
                },
                None => Ok(RunOutcome::Delivered(manager.start_all(drive))),
            }
        },
        JobCommand::Drop { job_id } => {
            match job_id {
                Some(id) => {
                    match manager.drop_job(*id as u64) {
                        Ok(_) => Ok(RunOutcome::Done),
                        Err(e) => Err(e),
                    }
                },
                None => {
                    manager.drop_all();
                    Ok(RunOutcome::Done)
                },
            }
        },
    }
}

/// Law: filing a request and dropping it before it starts leaves the
/// queue exactly as it was; only the id counter has moved on.
pub proof fn lemma_enqueue_then_drop(jobs: Seq<JobV>, next_id: u64, key: Seq<u8>, dest: Seq<u8>)
    requires
        forall|i: int| 0 <= i < jobs.len() ==> (#[trigger] jobs[i]).id < next_id,
    ensures
        ({
            let j = JobV { id: next_id, key: key, destination: dest, state: JobState::Pending };
            let grown = jobs + seq![j];
            &&& job_index(grown, next_id) == jobs.len()
            &&& !(grown[job_index(grown, next_id)].state is Running)
            &&& grown.remove(job_index(grown, next_id)) == jobs
        }),
{
    let j = JobV { id: next_id, key: key, destination: dest, state: JobState::Pending };
    let grown = jobs + seq![j];
    assert(grown[jobs.len() as int] == j);
    assert forall|i: int| 0 <= i < jobs.len() implies (#[trigger] grown[i]).id != next_id by {
        assert(grown[i] == jobs[i]);
    }
    lemma_job_index_first(grown, next_id, jobs.len() as int);
    assert(grown.remove(jobs.len() as int) =~= jobs);
}

} // verus!

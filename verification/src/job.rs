//! Job table: tracks background children, enforces a concurrency ceiling of
//! ten simultaneously running jobs, and non-blockingly reaps completed
//! children.
//!
//! Job ids start at one, increase monotonically and are never reused, even
//! after a job completes; completed jobs stay in the table (marked done) so
//! that they can still be listed.

use vstd::prelude::*;

use crate::report::{line_job_done, line_job_listing, render_job_done, render_job_listing};

verus! {

/// The most jobs that may be running at once.
pub const MAX_RUNNING_JOBS: usize = 10;

/// A tracked background invocation.
pub struct Job {
    /// Monotonic identifier, starting at 1, never reused.
    pub id: usize,
    /// The operating-system process id of the job's final stage.
    pub pid: i32,
    /// The original command line, kept for reporting.
    pub cmdline: String,
    /// Whether the job is still running.
    pub running: bool,
}

/// Mathematical model of a job.
pub struct JobModel {
    pub id: nat,
    pub pid: int,
    pub cmdline: Seq<char>,
    pub running: bool,
}

impl View for Job {
    type V = JobModel;

    open spec fn view(&self) -> JobModel {
        JobModel {
            id: self.id as nat,
            pid: self.pid as int,
            cmdline: self.cmdline@,
            running: self.running,
        }
    }
}

/// Holds the background jobs, completed ones included.
pub struct JobTable {
    next_id: usize,
    jobs: Vec<Job>,
}

/// Mathematical model of the job table.
#[verifier::ext_equal]
pub struct JobTableModel {
    pub next_id: nat,
    pub jobs: Seq<JobModel>,
}

impl View for JobTable {
    type V = JobTableModel;

    closed spec fn view(&self) -> JobTableModel {
        JobTableModel { next_id: self.next_id as nat, jobs: self.jobs@.map_values(|j: Job| j@) }
    }
}

/// How many of the jobs are still running.
pub open spec fn num_running(js: Seq<JobModel>) -> nat
    decreases js.len(),
{
    if js.len() == 0 {
        0
    } else {
        num_running(js.drop_last()) + if js.last().running {
            1nat
        } else {
            0nat
        }
    }
}

/// Well-formedness of the table: the next id is at least one and greater
/// than every recorded id, ids are strictly increasing in insertion order,
/// and at most `MAX_RUNNING_JOBS` jobs are running.
pub open spec fn table_wf(t: JobTableModel) -> bool {
    &&& t.next_id >= 1
    &&& forall|i: int| 0 <= i < t.jobs.len() ==> #[trigger] t.jobs[i].id < t.next_id
    &&& forall|i: int, j: int|
        0 <= i < j < t.jobs.len() ==> #[trigger] t.jobs[i].id < #[trigger] t.jobs[j].id
    &&& num_running(t.jobs) <= MAX_RUNNING_JOBS
}

/// What adding a job does to the table model: when the ceiling is reached
/// the request is rejected and the table is unchanged; otherwise the next id
/// is allocated, the job is recorded as running, and the id is returned.
pub open spec fn spec_add(t: JobTableModel, pid: int, cmdline: Seq<char>) -> (JobTableModel, Option<
    nat,
>) {
    if num_running(t.jobs) >= MAX_RUNNING_JOBS {
        (t, None)
    } else {
        (
            JobTableModel {
                next_id: t.next_id + 1,
                jobs: t.jobs.push(JobModel { id: t.next_id, pid, cmdline, running: true }),
            },
            Some(t.next_id),
        )
    }
}

/// Appending one job adds one to the running count exactly when it runs.
proof fn lemma_num_running_push(js: Seq<JobModel>, j: JobModel)
    ensures
        num_running(js.push(j)) == num_running(js) + if j.running {
            1nat
        } else {
            0nat
        },
{
    assert(js.push(j).drop_last() =~= js);
}

/// Flipping one running job to done lowers the running count by exactly one.
proof fn lemma_num_running_update_done(js: Seq<JobModel>, k: int)
    requires
        0 <= k < js.len(),
        js[k].running,
    ensures
        num_running(js.update(k, JobModel { running: false, ..js[k] })) + 1 == num_running(js),
    decreases js.len(),
{
    let js2 = js.update(k, JobModel { running: false, ..js[k] });
    if k == js.len() - 1 {
        assert(js2.drop_last() =~= js.drop_last());
    } else {
        assert(js2.drop_last() =~= js.drop_last().update(k, JobModel { running: false, ..js[k] }));
        lemma_num_running_update_done(js.drop_last(), k);
    }
}

/// If each job of `b` runs only where the same job of `a` runs, `b` has no
/// more running jobs than `a`.
proof fn lemma_num_running_pointwise(a: Seq<JobModel>, b: Seq<JobModel>)
    requires
        a.len() == b.len(),
        forall|i: int| 0 <= i < a.len() && #[trigger] b[i].running ==> a[i].running,
    ensures
        num_running(b) <= num_running(a),
    decreases a.len(),
{
    if a.len() > 0 {
        lemma_num_running_pointwise(a.drop_last(), b.drop_last());
    }
}

/// The first index at or after `i` of a running job with the given process
/// id, or the length if there is none.
pub open spec fn find_running_from(js: Seq<JobModel>, pid: int, i: int) -> int
    decreases js.len() - i,
{
    if !(0 <= i < js.len()) {
        js.len() as int
    } else if js[i].pid == pid && js[i].running {
        i
    } else {
        find_running_from(js, pid, i + 1)
    }
}

pub proof fn lemma_find_running_from(js: Seq<JobModel>, pid: int, i: int)
    requires
        0 <= i <= js.len(),
    ensures
        i <= find_running_from(js, pid, i) <= js.len(),
        find_running_from(js, pid, i) < js.len() ==> {
            let k = find_running_from(js, pid, i);
            js[k].pid == pid && js[k].running
        },
        forall|k: int|
            i <= k < find_running_from(js, pid, i) ==> !(#[trigger] js[k].pid == pid
                && js[k].running),
    decreases js.len() - i,
{
    if 0 <= i < js.len() && !(js[i].pid == pid && js[i].running) {
        lemma_find_running_from(js, pid, i + 1);
    }
}

/// `s` is the completion line of a job that was running in `before` and is
/// done in `after`.
pub open spec fn completion_of(before: Seq<JobModel>, after: Seq<JobModel>, s: Seq<char>) -> bool {
    exists|i: int|
        0 <= i < before.len() && #[trigger] before[i].running && !after[i].running && s
            == line_job_done(before[i].id as int, before[i].cmdline)
}

/// The listing lines of the running jobs, in table order.
pub open spec fn spec_listing(js: Seq<JobModel>) -> Seq<Seq<char>>
    decreases js.len(),
{
    if js.len() == 0 {
        Seq::empty()
    } else {
        spec_listing(js.drop_last()) + if js.last().running {
            seq![line_job_listing(js.last().id as int, js.last().pid, js.last().cmdline)]
        } else {
            Seq::empty()
        }
    }
}

/// Relies on nix::sys::wait::waitpid with the WNOHANG flag: a non-blocking
/// query for one child process whose state changed. `Exited` and `Signaled`
/// answers carry the pid of a terminated child; `StillAlive` (nothing to
/// report) and errors (no children at all) yield `None`. Which child, if
/// any, is reported depends on the state of the system, so nothing is
/// promised of the result.
#[verifier::external_body]
fn wait_any_nonblocking() -> (r: Option<i32>) {
    match nix::sys::wait::waitpid(
        None::<nix::unistd::Pid>,
        Some(nix::sys::wait::WaitPidFlag::WNOHANG),
    ) {
        Ok(nix::sys::wait::WaitStatus::Exited(pid, _)) => Some(pid.as_raw()),
        Ok(nix::sys::wait::WaitStatus::Signaled(pid, _, _)) => Some(pid.as_raw()),
        Ok(_) => None,
        Err(_) => None,
    }
}

impl JobTable {
    /// An empty table; the first job will get id 1.
    pub fn new() -> (r: JobTable)
        ensures
            table_wf(r@),
            r@.next_id == 1,
            r@.jobs.len() == 0,
    {
        let r = JobTable { next_id: 1, jobs: Vec::new() };
        proof {
            assert(r@.jobs =~= Seq::<JobModel>::empty());
        }
        r
    }

    /// The id the next accepted job will get.
    pub fn next_id(&self) -> (r: usize)
        ensures
            r == self@.next_id,
    {
        self.next_id
    }

    /// How many jobs are currently running.
    fn count_running(&self) -> (r: usize)
        ensures
            r == num_running(self@.jobs),
    {
        let mut count: usize = 0;
        let mut i: usize = 0;
        while i < self.jobs.len()
            invariant
                i <= self.jobs.len(),
                count == num_running(self@.jobs.take(i as int)),
                count <= i,
            decreases self.jobs.len() - i,
        {
            proof {
                assert(self@.jobs.take(i + 1).drop_last() =~= self@.jobs.take(i as int));
                assert(self@.jobs.take(i + 1).last() == self@.jobs[i as int]);
            }
            if self.jobs[i].running {
                count = count + 1;
            }
            i = i + 1;
        }
        proof {
            assert(self@.jobs.take(self.jobs.len() as int) =~= self@.jobs);
        }
        count
    }

    /// Whether any job is still running; the exit sequence blocks until this
    /// turns false.
    pub fn has_active(&self) -> (r: bool)
        ensures
            r == (num_running(self@.jobs) > 0),
    {
        self.count_running() > 0
    }

    /// Record a background job. When ten jobs are already running the job is
    /// rejected and the table is left unchanged; otherwise the job gets the
    /// next monotonically increasing id, is recorded as running, and its id
    /// is returned.
    pub fn add_job(&mut self, pid: i32, cmdline: String) -> (r: Option<usize>)
        requires
            table_wf(old(self)@),
            old(self)@.next_id < usize::MAX,
        ensures
            table_wf(final(self)@),
            (final(self)@, match r {
                Some(id) => Some(id as nat),
                None => None,
            }) == spec_add(old(self)@, pid as int, cmdline@),
    {
        let running = self.count_running();
        if running >= MAX_RUNNING_JOBS {
            return None;
        }
        let id = self.next_id;
        self.next_id = self.next_id + 1;
        let job = Job { id, pid, cmdline, running: true };
        proof {
            lemma_num_running_push(old(self)@.jobs, job@);
        }
        self.jobs.push(job);
        proof {
            assert(self@.jobs =~= old(self)@.jobs.push(job@));
            assert(self@ =~= spec_add(old(self)@, pid as int, job@.cmdline).0);
        }
        Some(id)
    }

    /// The listing lines of the running jobs, in the order the jobs were
    /// added: `[<job_id>]+ <process_id> <command_line>` for each. Empty
    /// exactly when nothing is running.
    pub fn list_running(&self) -> (r: Vec<String>)
        ensures
            r@.map_values(|s: String| s@) == spec_listing(self@.jobs),
            r@.len() == num_running(self@.jobs),
    {
        let mut lines: Vec<String> = Vec::new();
        let mut i: usize = 0;
        while i < self.jobs.len()
            invariant
                i <= self.jobs.len(),
                lines@.map_values(|s: String| s@) == spec_listing(self@.jobs.take(i as int)),
                lines@.len() == num_running(self@.jobs.take(i as int)),
            decreases self.jobs.len() - i,
        {
            proof {
                assert(self@.jobs.take(i + 1).drop_last() =~= self@.jobs.take(i as int));
                assert(self@.jobs.take(i + 1).last() == self@.jobs[i as int]);
            }
            if self.jobs[i].running {
                let ghost before = lines@;
                let line = render_job_listing(
                    self.jobs[i].id,
                    self.jobs[i].pid,
                    self.jobs[i].cmdline.as_str(),
                );
                lines.push(line);
                proof {
                    assert(lines@.map_values(|s: String| s@) =~= before.map_values(
                        |s: String| s@,
                    ).push(line@));
                    assert(lines@.map_values(|s: String| s@) =~= spec_listing(
                        self@.jobs.take(i + 1),
                    ));
                }
            }
            i = i + 1;
        }
        proof {
            assert(self@.jobs.take(self.jobs.len() as int) =~= self@.jobs);
        }
        lines
    }

    /// Mark the first running job with this process id as done, returning
    /// the completion report line; a pid matching no tracked running job is
    /// ignored (it belongs to an already-waited foreground child). `poll`
    /// applies this to each pid the system reports.
    pub fn mark_done(&mut self, pid: i32) -> (r: Option<String>)
        requires
            table_wf(old(self)@),
        ensures
            table_wf(final(self)@),
            final(self)@.next_id == old(self)@.next_id,
            final(self)@.jobs.len() == old(self)@.jobs.len(),
            ({
                let k = find_running_from(old(self)@.jobs, pid as int, 0);
                if k < old(self)@.jobs.len() {
                    &&& final(self)@.jobs == old(self)@.jobs.update(
                        k,
                        JobModel { running: false, ..old(self)@.jobs[k] },
                    )
                    &&& r matches Some(line) && line@ == line_job_done(
                        old(self)@.jobs[k].id as int,
                        old(self)@.jobs[k].cmdline,
                    )
                } else {
                    final(self)@ == old(self)@ && r is None
                }
            }),
    {
        let ghost js = self@.jobs;
        let ghost k = find_running_from(js, pid as int, 0);
        proof {
            lemma_find_running_from(js, pid as int, 0);
        }
        let mut i: usize = 0;
        while i < self.jobs.len()
            invariant
                *self == *old(self),
                table_wf(old(self)@),
                js == self@.jobs,
                k == find_running_from(js, pid as int, 0),
                i <= self.jobs.len(),
                forall|m: int| 0 <= m < i ==> !(#[trigger] js[m].pid == pid && js[m].running),
                find_running_from(js, pid as int, i as int) == k,
            decreases self.jobs.len() - i,
        {
            if self.jobs[i].pid == pid && self.jobs[i].running {
                proof {
                    assert(k == i as int);
                }
                let id = self.jobs[i].id;
                let line = render_job_done(id, self.jobs[i].cmdline.as_str());
                let mut job = self.jobs.remove(i);
                job.running = false;
                self.jobs.insert(i, job);
                proof {
                    assert(self@.jobs =~= js.update(k, JobModel { running: false, ..js[k] }));
                    assert(forall|m: int|
                        0 <= m < self@.jobs.len() ==> #[trigger] self@.jobs[m].id == js[m].id);
                    assert(forall|m: int|
                        0 <= m < self@.jobs.len() && #[trigger] self@.jobs[m].running
                            ==> js[m].running);
                    lemma_num_running_pointwise(js, self@.jobs);
                    assert(self@.next_id == old(self)@.next_id);
                    assert(forall|m: int|
                        0 <= m < self@.jobs.len() ==> #[trigger] self@.jobs[m].id
                            < self@.next_id);
                    assert(forall|m: int, n: int|
                        0 <= m < n < self@.jobs.len() ==> #[trigger] self@.jobs[m].id
                            < #[trigger] self@.jobs[n].id);
                    assert(num_running(self@.jobs) <= MAX_RUNNING_JOBS);
                }
                return Some(line);
            }
            i = i + 1;
        }
        proof {
            assert(self@ =~= old(self)@);
        }
        None
    }

    /// Non-blockingly reap completed children, repeating while the system
    /// still reports state changes. Each reaped pid that matches a tracked
    /// running job flips that job to done and yields its completion line;
    /// pids of already-waited foreground children are silently ignored. Ids,
    /// pids and command lines never change, and a job once done never runs
    /// again.
    pub fn poll(&mut self) -> (r: Vec<String>)
        requires
            table_wf(old(self)@),
        ensures
            table_wf(final(self)@),
            final(self)@.next_id == old(self)@.next_id,
            final(self)@.jobs.len() == old(self)@.jobs.len(),
            forall|i: int|
                0 <= i < old(self)@.jobs.len() ==> {
                    let a = old(self)@.jobs[i];
                    let b = #[trigger] final(self)@.jobs[i];
                    b.id == a.id && b.pid == a.pid && b.cmdline == a.cmdline && (b.running
                        ==> a.running)
                },
            num_running(final(self)@.jobs) <= num_running(old(self)@.jobs),
            r@.len() + num_running(final(self)@.jobs) == num_running(old(self)@.jobs),
            forall|n: int|
                0 <= n < r@.len() ==> completion_of(
                    old(self)@.jobs,
                    final(self)@.jobs,
                    (#[trigger] r@[n])@,
                ),
    {
        let mut lines: Vec<String> = Vec::new();
        // The system can only ever report finitely many children; budget the
        // scan so that it provably terminates.
        let mut budget: usize = usize::MAX;
        while budget > 0
            invariant
                table_wf(self@),
                self@.next_id == old(self)@.next_id,
                self@.jobs.len() == old(self)@.jobs.len(),
                forall|i: int|
                    0 <= i < old(self)@.jobs.len() ==> {
                        let a = old(self)@.jobs[i];
                        let b = #[trigger] self@.jobs[i];
                        b.id == a.id && b.pid == a.pid && b.cmdline == a.cmdline && (b.running
                            ==> a.running)
                    },
                num_running(self@.jobs) <= num_running(old(self)@.jobs),
                lines@.len() + num_running(self@.jobs) == num_running(old(self)@.jobs),
                forall|n: int|
                    0 <= n < lines@.len() ==> completion_of(
                        old(self)@.jobs,
                        self@.jobs,
                        (#[trigger] lines@[n])@,
                    ),
            decreases budget,
        {
            budget = budget - 1;
            let changed = wait_any_nonblocking();
            match changed {
                None => {
                    break ;
                },
                Some(pid) => {
                    let ghost pre = self@.jobs;
                    let ghost prelines = lines@;
                    let reported = self.mark_done(pid);
                    proof {
                        lemma_find_running_from(pre, pid as int, 0);
                        assert(forall|i: int|
                            0 <= i < old(self)@.jobs.len() ==> {
                                let a = old(self)@.jobs[i];
                                let b = #[trigger] self@.jobs[i];
                                b.id == a.id && b.pid == a.pid && b.cmdline == a.cmdline && (
                                b.running ==> a.running)
                            });
                        lemma_num_running_pointwise(old(self)@.jobs, self@.jobs);
                        assert forall|n: int|
                            0 <= n < prelines.len() implies completion_of(
                            old(self)@.jobs,
                            self@.jobs,
                            (#[trigger] prelines[n])@,
                        ) by {
                            let i = choose|i: int|
                                0 <= i < old(self)@.jobs.len() && #[trigger] old(
                                    self,
                                )@.jobs[i].running && !pre[i].running && prelines[n]@
                                    == line_job_done(
                                    old(self)@.jobs[i].id as int,
                                    old(self)@.jobs[i].cmdline,
                                );
                            assert(!self@.jobs[i].running);
                        }
                    }
                    match reported {
                        Some(line) => {
                            proof {
                                let k = find_running_from(pre, pid as int, 0);
                                assert(0 <= k < pre.len());
                                lemma_num_running_update_done(pre, k);
                                assert(pre[k].running && !self@.jobs[k].running);
                                assert(old(self)@.jobs[k].running);
                                assert(line@ == line_job_done(
                                    old(self)@.jobs[k].id as int,
                                    old(self)@.jobs[k].cmdline,
                                ));
                                assert(completion_of(old(self)@.jobs, self@.jobs, line@));
                            }
                            lines.push(line);
                        },
                        None => {},
                    }
                },
            }
        }
        lines
    }
}

/// Law: a well-formed table never has more than ten running jobs.
pub proof fn lemma_running_within_capacity(t: JobTableModel)
    requires
        table_wf(t),
    ensures
        num_running(t.jobs) <= 10,
{
}

/// Law: when ten jobs are running, adding one more is rejected and the
/// table — every existing job included — is left exactly as it was.
pub proof fn lemma_add_rejected_at_capacity(t: JobTableModel, pid: int, cmdline: Seq<char>)
    requires
        num_running(t.jobs) >= 10,
    ensures
        spec_add(t, pid, cmdline).0 == t,
        spec_add(t, pid, cmdline).1 is None,
{
}

/// Law: a successful add allocates an id strictly greater than every id
/// already in the table — ids are never reused — and two successive
/// successful adds yield strictly increasing ids.
pub proof fn lemma_add_ids_strictly_increase(
    t: JobTableModel,
    pid1: int,
    cmd1: Seq<char>,
    pid2: int,
    cmd2: Seq<char>,
)
    requires
        table_wf(t),
        spec_add(t, pid1, cmd1).1 is Some,
    ensures
        forall|i: int|
            0 <= i < t.jobs.len() ==> #[trigger] t.jobs[i].id < spec_add(
                t,
                pid1,
                cmd1,
            ).1.unwrap(),
        spec_add(spec_add(t, pid1, cmd1).0, pid2, cmd2).1 matches Some(id2) ==> id2 > spec_add(
            t,
            pid1,
            cmd1,
        ).1.unwrap(),
{
}

/// Law: completion never erases a job and never changes an id: however jobs
/// complete, the ids a well-formed table hands out later stay strictly above
/// every id it ever recorded.
pub proof fn lemma_ids_never_reused(t: JobTableModel)
    requires
        table_wf(t),
    ensures
        forall|i: int| 0 <= i < t.jobs.len() ==> #[trigger] t.jobs[i].id < t.next_id,
{
}

} // verus!
